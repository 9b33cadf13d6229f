use vstd::prelude::*;

use crate::mm::Freelist;

verus! {

/// The register slot that holds a thread's stack pointer.
pub const STACK_REGISTER: usize = 6;

/// A kernel thread: its saved registers, its page map and its place in the
/// ring of threads (`next` and `prev` are positions in the thread table).
#[derive(Clone, Copy, Debug)]
pub struct Thread {
    pub registers: [usize; 16],
    pub pagemap: usize,
    pub active: bool,
    pub user: bool,
    pub next: usize,
    pub prev: usize,
    /// The physical page the thread's record was allocated in.
    pub page: usize,
}

/// The stack pointer and page map to resume with after a context switch.
#[derive(Clone, Copy, Debug, PartialEq, Eq, Structural)]
pub struct Context {
    pub stack: usize,
    pub pagemap: usize,
}

/// Every thread ever created, and which one is current.
pub struct ThreadTable {
    threads: Vec<Thread>,
    current: Option<usize>,
}

/// The links of a thread table point inside it.
pub open spec fn links_ok(threads: Seq<Thread>, current: Option<usize>) -> bool {
    &&& forall|i: int| 0 <= i < threads.len() ==> (#[trigger] threads[i]).next < threads.len()
    &&& forall|i: int| 0 <= i < threads.len() ==> (#[trigger] threads[i]).prev < threads.len()
    &&& current matches Some(c) ==> c < threads.len()
}

/// The thread reached from `t` by following `next` links `k` times.
pub open spec fn follow(threads: Seq<Thread>, t: usize, k: nat) -> usize
    decreases k,
{
    if k == 0 {
        t
    } else {
        threads[follow(threads, t, (k - 1) as nat) as int].next
    }
}

/// The first active thread after `t` along the `next` links, looking at most
/// `fuel` steps ahead.
pub open spec fn next_active(threads: Seq<Thread>, t: usize, fuel: nat) -> usize
    decreases fuel,
{
    let u = threads[t as int].next;
    if fuel == 0 || threads[u as int].active {
        u
    } else {
        next_active(threads, u, (fuel - 1) as nat)
    }
}

/// Some active thread can be reached from `t` within `n` steps along `next`.
pub open spec fn active_reachable(threads: Seq<Thread>, t: usize, n: nat) -> bool {
    exists|k: nat| 1 <= k <= n && #[trigger] threads[follow(threads, t, k) as int].active
}

/// A fresh thread record as `Thread::new` fills it in.
pub open spec fn fresh_thread(stack: usize, pagemap: usize, user: bool, next: usize, prev: usize, page: usize) -> Thread {
    Thread {
        registers: [0, 0, 0, 0, 0, 0, stack, 0, 0, 0, 0, 0, 0, 0, 0, 0],
        pagemap,
        active: true,
        user,
        next,
        prev,
        page,
    }
}

impl ThreadTable {
    #[verifier::type_invariant]
    closed spec fn wf(&self) -> bool {
        links_ok(self.threads@, self.current)
    }

    /// The threads, by position.
    pub closed spec fn threads(&self) -> Seq<Thread> {
        self.threads@
    }

    /// The position of the current thread, if any thread was ever created.
    pub closed spec fn current(&self) -> Option<usize> {
        self.current
    }

    /// The links of the table point inside it, and the current thread, if
    /// any, is one of its threads (the table's invariant, for callers that
    /// hold a table they did not make).
    pub fn links_hold(&self)
        ensures
            links_ok(self.threads(), self.current()),
    {
        proof { use_type_invariant(self); }
    }

    /// A table with no thread.
    pub fn new() -> (t: ThreadTable)
        ensures
            t.threads() == Seq::<Thread>::empty(),
            t.current() == None::<usize>,
            links_ok(t.threads(), t.current()),
    {
        ThreadTable { threads: Vec::new(), current: None }
    }

}

impl ThreadTable {
    /// Whether some thread is current.
    pub fn has_current(&self) -> (b: bool)
        ensures
            b == self.current() is Some,
    {
        self.current.is_some()
    }

    /// Whether the current thread is active.
    pub fn current_is_active(&self) -> (b: bool)
        requires
            self.current() is Some,
        ensures
            b == self.threads()[self.current()->Some_0 as int].active,
    {
        let c = get_current_thread(self);
        self.threads[c].active
    }

    /// Whether an active thread can be reached from the current one along the
    /// ring within as many steps as there are threads, the condition under
    /// which `context_switch` finds the thread to switch to.
    pub fn active_reachable(&self) -> (b: bool)
        requires
            self.current() is Some,
        ensures
            b == active_reachable(self.threads(), self.current()->Some_0, self.threads().len()),
    {
        proof { use_type_invariant(self); }
        let c = get_current_thread(self);
        let ghost ts = self.threads@;
        let n = self.threads.len();
        let mut t = c;
        let mut k: usize = 0;
        while k < n
            invariant
                links_ok(ts, Some(c)),
                self.threads@ == ts,
                self.current == Some(c),
                n == ts.len(),
                c < n,
                k <= n,
                t == follow(ts, c, k as nat),
                t < n,
                forall|j: nat| 1 <= j <= k ==> !#[trigger] ts[follow(ts, c, j) as int].active,
            decreases n - k,
        {
            t = self.threads[t].next;
            k = k + 1;
            assert(t == follow(ts, c, k as nat));
            if self.threads[t].active {
                proof {
                    let kk: nat = k as nat;
                    assert(1 <= kk <= n);
                    assert(ts[follow(ts, c, kk) as int].active);
                }
                return true;
            }
        }
        proof {
            if active_reachable(ts, c, n as nat) {
                let j = choose|j: nat| 1 <= j <= n && #[trigger] ts[follow(ts, c, j) as int].active;
                assert(!ts[follow(ts, c, j) as int].active);
            }
        }
        false
    }
}

/// The table after `Thread::new` has put in a thread for `page`: with a current
/// thread, the new one copies the current thread's user flag (or-ed with
/// `make_user`) and its `next` link, takes the current thread as `prev`, and
/// the current thread stays current (no thread links to the new one); with no
/// current thread, the new one links to itself and becomes current.
pub open spec fn table_after_new(
    threads: Seq<Thread>,
    current: Option<usize>,
    stack: usize,
    pagemap: usize,
    make_user: bool,
    page: usize,
) -> (Seq<Thread>, Option<usize>) {
    let n = threads.len() as usize;
    match current {
        Some(c) => (
            threads.push(fresh_thread(stack, pagemap, make_user || threads[c as int].user, threads[c as int].next, c, page)),
            current,
        ),
        None => (threads.push(fresh_thread(stack, pagemap, make_user, n, n, page)), Some(n)),
    }
}

/// `after` is `before` with `stack` saved as its stack pointer and `pagemap`
/// as its page map, all else kept.
pub open spec fn saved_from(after: Thread, before: Thread, stack: usize, pagemap: usize) -> bool {
    &&& after.registers@ == before.registers@.update(STACK_REGISTER as int, stack)
    &&& after.pagemap == pagemap
    &&& after.active == before.active
    &&& after.user == before.user
    &&& after.next == before.next
    &&& after.prev == before.prev
    &&& after.page == before.page
}

impl Thread {
    /// Makes a thread whose record lives in a page taken from the free list,
    /// with `stack` as its stack pointer and all other registers 0.
    pub fn new(table: &mut ThreadTable, freelist: &mut Freelist, stack: usize, pagemap: usize, make_user: bool)
        requires
            old(freelist)@.len() > 0,
        ensures
            final(freelist)@ == old(freelist)@.drop_last(),
            (final(table).threads(), final(table).current()) == table_after_new(
                old(table).threads(),
                old(table).current(),
                stack,
                pagemap,
                make_user,
                old(freelist)@.last(),
            ),
            links_ok(final(table).threads(), final(table).current()),
    {
        proof { use_type_invariant(&*table); }
        let page = match freelist.alloc_page() {
            Ok(p) => p,
            Err(_) => {
                assert(false);
                0
            },
        };
        let mut taken = ThreadTable::new();
        std::mem::swap(&mut taken, table);
        proof { use_type_invariant(&taken); }
        let ThreadTable { mut threads, current } = taken;
        let n = threads.len();
        let registers: [usize; 16] = [0, 0, 0, 0, 0, 0, stack, 0, 0, 0, 0, 0, 0, 0, 0, 0];
        let new_current = match current {
            Some(c) => {
                let cur = threads[c];
                let thread = Thread {
                    registers,
                    pagemap,
                    active: true,
                    user: make_user || cur.user,
                    next: cur.next,
                    prev: c,
                    page,
                };
                threads.push(thread);
                current
            },
            None => {
                let thread = Thread { registers, pagemap, active: true, user: make_user, next: n, prev: n, page };
                threads.push(thread);
                Some(n)
            },
        };
        *table = ThreadTable { threads, current: new_current };
        proof { use_type_invariant(&*table); }
    }
}

/// Threads that agree on every `next` link and `active` flag.
pub open spec fn same_ring(a: Seq<Thread>, b: Seq<Thread>) -> bool {
    &&& a.len() == b.len()
    &&& forall|i: int| 0 <= i < a.len() ==> (#[trigger] a[i]).next == b[i].next && a[i].active == b[i].active
}

proof fn lemma_follow_same_ring(a: Seq<Thread>, b: Seq<Thread>, t: usize, k: nat)
    requires
        same_ring(a, b),
        links_ok(a, None),
        t < a.len(),
    ensures
        follow(a, t, k) == follow(b, t, k),
        follow(a, t, k) < a.len(),
    decreases k,
{
    if k > 0 {
        lemma_follow_same_ring(a, b, t, (k - 1) as nat);
        let p = follow(a, t, (k - 1) as nat);
        assert(a[p as int].next == b[p as int].next);
    }
}

/// What `context_switch` leaves behind: the current thread `c` gets `stack`
/// and `pagemap` saved, and the first active thread after it along the ring
/// becomes current.
pub open spec fn switch_target(threads: Seq<Thread>, c: usize) -> usize {
    next_active(threads, c, threads.len())
}

/// `after` is the thread table `before` once `save_register(which, what)` has
/// run with `c` current: an active thread `c` gets `what` in register `which`,
/// an inactive one is left alone, and so is every other thread.
pub open spec fn register_saved(before: Seq<Thread>, after: Seq<Thread>, c: usize, which: usize, what: usize) -> bool {
    let b = before[c as int];
    let a = after[c as int];
    if b.active {
        &&& after.len() == before.len()
        &&& forall|i: int| 0 <= i < before.len() && i != c ==> after[i] == before[i]
        &&& a.registers@ == b.registers@.update(which as int, what)
        &&& a.pagemap == b.pagemap && a.active == b.active && a.user == b.user
        &&& a.next == b.next && a.prev == b.prev && a.page == b.page
    } else {
        after == before
    }
}

/// The position of the current thread.
fn get_current_thread(table: &ThreadTable) -> (c: usize)
    requires
        table.current() is Some,
    ensures
        Some(c) == table.current(),
        c < table.threads().len(),
{
    proof { use_type_invariant(table); }
    match table.current {
        Some(c) => c,
        None => {
            assert(false);
            0
        },
    }
}

impl Thread {
    /// The position of the thread that follows this one in the ring.
    pub fn get_next(&self) -> (n: usize)
        ensures
            n == self.next,
    {
        self.next
    }

    /// Marks the current thread inactive (the caller then switches away).
    pub fn exit(table: &mut ThreadTable)
        requires
            old(table).current() is Some,
        ensures
            final(table).current() == old(table).current(),
            final(table).threads() == old(table).threads().update(
                old(table).current()->Some_0 as int,
                Thread { active: false, ..old(table).threads()[old(table).current()->Some_0 as int] },
            ),
            links_ok(final(table).threads(), final(table).current()),
    {
        let c = get_current_thread(table);
        let mut taken = ThreadTable::new();
        std::mem::swap(&mut taken, table);
        proof { use_type_invariant(&taken); }
        let ThreadTable { mut threads, current } = taken;
        let mut th = threads[c];
        th.active = false;
        threads.set(c, th);
        *table = ThreadTable { threads, current };
        proof { use_type_invariant(&*table); }
    }
}

/// Saves `stack` and `pagemap` into the current thread, makes the first active
/// thread after it along the ring current, and returns the stack pointer and
/// page map of the thread that follows the new current one.
pub fn context_switch(table: &mut ThreadTable, stack: usize, pagemap: usize) -> (r: Context)
    requires
        old(table).current() is Some,
        active_reachable(old(table).threads(), old(table).current()->Some_0, old(table).threads().len()),
    ensures
        ({
            let c = old(table).current()->Some_0;
            let ts = final(table).threads();
            let t = switch_target(ts, c);
            &&& ts.len() == old(table).threads().len()
            &&& same_ring(ts, old(table).threads())
            &&& saved_from(ts[c as int], old(table).threads()[c as int], stack, pagemap)
            &&& forall|i: int| 0 <= i < ts.len() && i != c ==> ts[i] == old(table).threads()[i]
            &&& final(table).current() == Some(t)
            &&& t < ts.len()
            &&& ts[t as int].active
            &&& r == (Context {
                stack: ts[ts[t as int].next as int].registers[STACK_REGISTER as int],
                pagemap: ts[ts[t as int].next as int].pagemap,
            })
        }),
        links_ok(final(table).threads(), final(table).current()),
{
    let c = get_current_thread(table);
    let ghost old_threads = table.threads();
    let mut taken = ThreadTable::new();
    std::mem::swap(&mut taken, table);
    proof { use_type_invariant(&taken); }
    let ThreadTable { mut threads, current } = taken;
    let mut th = threads[c];
    th.registers[STACK_REGISTER] = stack;
    th.pagemap = pagemap;
    threads.set(c, th);
    let ghost ts = threads@;
    let ghost len = ts.len();
    proof {
        assert(same_ring(ts, old_threads));
        let k = choose|k: nat| 1 <= k <= old_threads.len() && #[trigger] old_threads[follow(old_threads, c, k) as int].active;
        lemma_follow_same_ring(ts, old_threads, c, k);
        assert(ts[follow(ts, c, k) as int].active);
    }
    let mut t = c;
    let ghost mut steps: nat = 0;
    loop
        invariant_except_break
            links_ok(ts, Some(c)),
            threads@ == ts,
            len == ts.len(),
            c < len,
            t < len,
            steps < len,
            t == follow(ts, c, steps),
            forall|j: nat| 1 <= j <= steps ==> !ts[follow(ts, c, j) as int].active,
            exists|k: nat| 1 <= k <= len && #[trigger] ts[follow(ts, c, k) as int].active,
            next_active(ts, c, len) == next_active(ts, t, (len - steps) as nat),
        ensures
            threads@ == ts,
            t < len,
            t == switch_target(ts, c),
            ts[t as int].active,
        decreases len - steps,
    {
        let u = threads[t].next;
        proof {
            assert(follow(ts, c, steps + 1) == u);
        }
        if threads[u].active {
            t = u;
            break;
        }
        proof {
            let k = choose|k: nat| 1 <= k <= len && #[trigger] ts[follow(ts, c, k) as int].active;
            assert(k > steps + 1);
            steps = steps + 1;
        }
        t = u;
    }
    let n = threads[t].next;
    let r = Context { stack: threads[n].registers[STACK_REGISTER], pagemap: threads[n].pagemap };
    *table = ThreadTable { threads, current: Some(t) };
    proof { use_type_invariant(&*table); }
    r
}

/// Register `which` of the current thread.
pub fn load_register(table: &ThreadTable, which: usize) -> (v: usize)
    requires
        table.current() is Some,
        which < 16,
    ensures
        v == table.threads()[table.current()->Some_0 as int].registers[which as int],
{
    let c = get_current_thread(table);
    table.threads[c].registers[which]
}

/// Stores `what` in register `which` of the current thread if it is active;
/// an inactive current thread is left as it is.
pub fn save_register(table: &mut ThreadTable, which: usize, what: usize)
    requires
        old(table).current() is Some,
        old(table).threads()[old(table).current()->Some_0 as int].active ==> which < 16,
    ensures
        final(table).current() == old(table).current(),
        register_saved(
            old(table).threads(),
            final(table).threads(),
            old(table).current()->Some_0,
            which,
            what,
        ),
        links_ok(final(table).threads(), final(table).current()),
{
    let c = get_current_thread(table);
    proof { use_type_invariant(&*table); }
    if table.threads[c].active {
        let mut taken = ThreadTable::new();
        std::mem::swap(&mut taken, table);
        proof { use_type_invariant(&taken); }
        let ThreadTable { mut threads, current } = taken;
        let mut th = threads[c];
        th.registers[which] = what;
        threads.set(c, th);
        *table = ThreadTable { threads, current };
    }
    proof { use_type_invariant(&*table); }
}

/// Whether the current thread runs in user mode.
pub fn is_usermode_thread(table: &ThreadTable) -> (u: bool)
    requires
        table.current() is Some,
    ensures
        u == table.threads()[table.current()->Some_0 as int].user,
{
    let c = get_current_thread(table);
    table.threads[c].user
}

/// Reading a register gives back what was last saved in it while the thread
/// was active, and saving one register leaves the others as they were.
pub proof fn lemma_load_after_save(before: Seq<Thread>, after: Seq<Thread>, c: usize, which: usize, what: usize, other: usize)
    requires
        c < before.len(),
        before[c as int].active,
        which < 16,
        other < 16,
        other != which,
        register_saved(before, after, c, which, what),
    ensures
        after[c as int].registers[which as int] == what,
        after[c as int].registers[other as int] == before[c as int].registers[other as int],
{
}

/// A thread alone in its ring (its `next` is itself) that is active is switched
/// back to, and the context handed out is the one just saved into it.
pub proof fn lemma_single_thread_switch(before: Seq<Thread>, after: Seq<Thread>, c: usize, stack: usize, pagemap: usize)
    requires
        c < before.len(),
        before[c as int].next == c,
        before[c as int].active,
        after.len() == before.len(),
        saved_from(after[c as int], before[c as int], stack, pagemap),
    ensures
        switch_target(after, c) == c,
        after[after[c as int].next as int].registers[STACK_REGISTER as int] == stack,
        after[after[c as int].next as int].pagemap == pagemap,
{
}

/// The first thread made becomes current and forms a ring of its own; later
/// threads leave the existing ones and the current one as they were.
pub proof fn lemma_new_thread_ring(
    threads: Seq<Thread>,
    current: Option<usize>,
    stack: usize,
    pagemap: usize,
    make_user: bool,
    page: usize,
)
    requires
        links_ok(threads, current),
        threads.len() < usize::MAX,
    ensures
        ({
            let (ts, cur) = table_after_new(threads, current, stack, pagemap, make_user, page);
            &&& ts.len() == threads.len() + 1
            &&& forall|i: int| 0 <= i < threads.len() ==> ts[i] == threads[i]
            &&& ts[threads.len() as int].active
            &&& ts[threads.len() as int].registers[STACK_REGISTER as int] == stack
            &&& current is None ==> cur == Some(threads.len() as usize) && ts[threads.len() as int].next == threads.len()
                && ts[threads.len() as int].prev == threads.len()
            &&& current is Some ==> cur == current
        }),
{
}

/// The thread made current after `j` context switches starting from `c`,
/// while the ring and the active flags stay as they are.
pub open spec fn switch_iter(threads: Seq<Thread>, c: usize, j: nat) -> usize
    decreases j,
{
    if j == 0 {
        c
    } else {
        switch_target(threads, switch_iter(threads, c, (j - 1) as nat))
    }
}

proof fn lemma_follow_add(threads: Seq<Thread>, t: usize, a: nat, b: nat)
    ensures
        follow(threads, t, a + b) == follow(threads, follow(threads, t, a), b),
    decreases b,
{
    if b > 0 {
        lemma_follow_add(threads, t, a, (b - 1) as nat);
        assert(follow(threads, t, a + b) == threads[follow(threads, t, (a + b - 1) as nat) as int].next);
    }
}

/// `next_active` stops at the first active thread along the ring.
proof fn lemma_next_active_first(threads: Seq<Thread>, t: usize, d: nat, fuel: nat)
    requires
        1 <= d <= fuel + 1,
        threads[follow(threads, t, d) as int].active,
        forall|s: nat| 1 <= s < d ==> !#[trigger] threads[follow(threads, t, s) as int].active,
    ensures
        next_active(threads, t, fuel) == follow(threads, t, d),
    decreases d,
{
    let u = threads[t as int].next;
    assert(follow(threads, t, 0) == t);
    assert(follow(threads, t, 1) == u);
    if d > 1 {
        assert(!threads[follow(threads, t, 1) as int].active);
        assert forall|s: nat| 1 <= s < (d - 1) as nat implies !#[trigger] threads[follow(threads, u, s) as int].active by {
            lemma_follow_add(threads, t, 1, s);
            assert(!threads[follow(threads, t, 1 + s) as int].active);
        }
        lemma_follow_add(threads, t, 1, (d - 1) as nat);
        lemma_next_active_first(threads, u, (d - 1) as nat, (fuel - 1) as nat);
    }
}

/// The last step `s <= k` along the ring from `c` at which the thread is
/// active, or 0 if there is none.
pub open spec fn last_active(threads: Seq<Thread>, c: usize, k: nat) -> nat
    decreases k,
{
    if k == 0 {
        0
    } else if threads[follow(threads, c, k) as int].active {
        k
    } else {
        last_active(threads, c, (k - 1) as nat)
    }
}

proof fn lemma_last_active(threads: Seq<Thread>, c: usize, k: nat)
    ensures
        last_active(threads, c, k) <= k,
        last_active(threads, c, k) == 0 || threads[follow(threads, c, last_active(threads, c, k)) as int].active,
        forall|s: nat| last_active(threads, c, k) < s <= k ==> !#[trigger] threads[follow(threads, c, s) as int].active,
    decreases k,
{
    if k > 0 {
        lemma_last_active(threads, c, (k - 1) as nat);
    }
}

/// Round-robin: with the ring and the active flags left as they are, every
/// active thread met within `k` steps along the ring from the current thread
/// `c` is made current by one of the next `k` context switches (and
/// `context_switch` itself never makes an inactive thread current).
pub proof fn lemma_switches_visit_active_threads(threads: Seq<Thread>, c: usize, k: nat)
    requires
        links_ok(threads, Some(c)),
        1 <= k <= threads.len(),
        threads[follow(threads, c, k) as int].active,
    ensures
        exists|j: nat| 1 <= j <= k && #[trigger] switch_iter(threads, c, j) == follow(threads, c, k),
    decreases k,
{
    let p = last_active(threads, c, (k - 1) as nat);
    lemma_last_active(threads, c, (k - 1) as nat);
    let j0: nat = if p == 0 {
        0
    } else {
        lemma_switches_visit_active_threads(threads, c, p);
        choose|j: nat| 1 <= j <= p && #[trigger] switch_iter(threads, c, j) == follow(threads, c, p)
    };
    assert(switch_iter(threads, c, j0) == follow(threads, c, p));
    let t = follow(threads, c, p);
    let d = (k - p) as nat;
    lemma_follow_add(threads, c, p, d);
    assert(p + d == k);
    assert forall|s: nat| 1 <= s < d implies !#[trigger] threads[follow(threads, t, s) as int].active by {
        lemma_follow_add(threads, c, p, s);
        assert(p < p + s <= k - 1);
        assert(!threads[follow(threads, c, p + s) as int].active);
    }
    lemma_next_active_first(threads, t, d, threads.len());
    assert(switch_iter(threads, c, j0 + 1) == follow(threads, c, k));
}

/// Threads that agree on the ring and the active flags switch the same way,
/// so saving registers in `context_switch` does not change where later
/// switches go.
pub proof fn lemma_switch_target_same_ring(a: Seq<Thread>, b: Seq<Thread>, t: usize, fuel: nat)
    requires
        same_ring(a, b),
        links_ok(a, Some(t)),
    ensures
        next_active(a, t, fuel) == next_active(b, t, fuel),
    decreases fuel,
{
    let u = a[t as int].next;
    assert(b[t as int].next == u);
    if fuel > 0 && !a[u as int].active {
        lemma_switch_target_same_ring(a, b, u, (fuel - 1) as nat);
    }
}

/// A thread that `Thread::new` makes starts with every register 0 except the
/// stack pointer (register 6), which holds `stack`; it is active, has the
/// given page map, lives in the given page, and goes at the end of the table
/// without changing the threads already there.
pub proof fn lemma_new_thread_registers(
    threads: Seq<Thread>,
    current: Option<usize>,
    stack: usize,
    pagemap: usize,
    make_user: bool,
    page: usize,
)
    requires
        links_ok(threads, current),
        threads.len() < usize::MAX,
    ensures
        ({
            let ts = table_after_new(threads, current, stack, pagemap, make_user, page).0;
            let n = threads.len() as int;
            &&& ts.len() == n + 1
            &&& ts[n].registers@.len() == 16
            &&& forall|r: int| 0 <= r < 16 && r != 6 ==> #[trigger] ts[n].registers@[r] == 0
            &&& ts[n].registers@[6] == stack
            &&& ts[n].pagemap == pagemap
            &&& ts[n].active
            &&& ts[n].page == page
            &&& ts[n].user == (make_user || (current matches Some(c) && threads[c as int].user))
            &&& forall|i: int| 0 <= i < n ==> #[trigger] ts[i] == threads[i]
        }),
{
    let ts = table_after_new(threads, current, stack, pagemap, make_user, page).0;
    let n = threads.len() as int;
    let regs = ts[n].registers;
    assert(regs@.len() == 16);
    assert forall|r: int| 0 <= r < 16 && r != 6 implies #[trigger] regs@[r] == 0 by {
        vstd::array::lemma_array_index(regs, r);
    }
    vstd::array::lemma_array_index(regs, 6);
}

} // verus!
