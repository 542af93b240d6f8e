//! A model of one cell shared by any number of threads.
//!
//! The model keeps the cell's word, where each thread stands in its operation, and the
//! transfers that were completed. A thread moves by the steps that the cell's operations
//! are made of: it loads the word, tries to exchange the word it expects for the
//! reserved one, and, once it holds a word, puts one back. What a thread does with the
//! result of an exchange is `claim_outcome`, the decision that the cell itself runs.
//! The steps of different threads interleave in any order. A word stands for the handle
//! that it encodes: the thread that holds a word is the one that owns the handle.
//!
//! The cell's operations are made of these steps. A claim of the cell is a load and a
//! run of attempts of which its contract says that they follow the protocol;
//! `lemma_attempts_are_exchanges` shows that each attempt is then made with the word
//! that the thread of the model expects at that point, so that it is an exchange step
//! of that thread. A put of the cell stores the encoding of a handle, which is never a
//! reserved word, as a put step asks. What the model adds, and no contract of the cell
//! can state, is that the word behaves as one memory cell: an exchange reports the
//! word that the last step left.
//!
//! Proved of every state that any interleaving reaches: at most one thread holds a word,
//! that word is never the reserved one, every transfer takes out exactly the word that
//! the transfer before it put in, and no word is lost or handed out twice.

use crate::protocol::claim_outcome;
use crate::protocol::follows_protocol;
use crate::protocol::Attempt;
use crate::protocol::Claim;
use vstd::multiset::Multiset;
use vstd::prelude::*;

verus! {

/// Where a thread stands in an operation on the cell.
pub enum Thread {
    /// Not in an operation.
    Idle,
    /// Trying to claim the word, which it expects to be `expected`.
    Spinning { expected: usize },
    /// Between its take and its put: it took `word` out of the cell.
    Holding { word: usize },
}

/// One completed take and put.
pub struct Transfer {
    pub thread: int,
    /// The word that the take claimed.
    pub taken_out: usize,
    /// The word that the put stored.
    pub put_in: usize,
}

/// The cell and the threads that share it.
pub struct Machine {
    /// The reserved word of the handle type.
    pub taken: usize,
    /// The word that the cell was created with.
    pub initial: usize,
    /// The word in the cell now.
    pub word: usize,
    pub threads: Seq<Thread>,
    /// The completed transfers, in the order of their puts.
    pub history: Seq<Transfer>,
}

/// One atomic step of one thread.
pub enum Step {
    /// The thread starts an operation and loads the word.
    Load { thread: int },
    /// The thread tries to exchange the word it expects for the reserved word, and the
    /// hardware reports `exchanged`: `Ok` with the word that was replaced, or `Err`
    /// with the word that is there.
    Exchange { thread: int, exchanged: Result<usize, usize> },
    /// The thread stops trying.
    GiveUp { thread: int },
    /// The thread puts `word` into the cell and ends its operation.
    Put { thread: int, word: usize },
}

/// A cell that was just created with the word `initial`, and `threads` idle threads.
pub open spec fn start(taken: usize, initial: usize, threads: nat) -> Machine {
    Machine {
        taken,
        initial,
        word: initial,
        threads: Seq::new(threads, |i: int| Thread::Idle),
        history: Seq::empty(),
    }
}

/// Whether `thread` is one of the threads that share the cell.
pub open spec fn is_thread(m: Machine, thread: int) -> bool {
    0 <= thread < m.threads.len()
}

/// Whether `thread` is between its take and its put.
pub open spec fn holds(m: Machine, thread: int) -> bool {
    is_thread(m, thread) && m.threads[thread] is Holding
}

/// Where a thread stands after an exchange that reported `exchanged`: it holds the
/// word that it claimed, or it tries again with the word that `claim_outcome` names.
pub open spec fn after_exchange(taken: usize, exchanged: Result<usize, usize>) -> Thread {
    match claim_outcome(taken, exchanged) {
        Claim::Claimed(word) => Thread::Holding { word },
        Claim::Retry(expected) => Thread::Spinning { expected },
    }
}

/// Whether `step` can happen in `m`.
///
/// An exchange succeeds only if the word is the expected one. It may fail although it
/// is, as a weak compare-and-exchange does; either way it reports the word that is in
/// the cell. A put stores any word but the reserved one.
pub open spec fn enabled(m: Machine, step: Step) -> bool {
    match step {
        Step::Load { thread } => is_thread(m, thread) && m.threads[thread] is Idle,
        Step::Exchange { thread, exchanged } => {
            &&& is_thread(m, thread)
            &&& m.threads[thread] matches Thread::Spinning { expected }
            &&& match exchanged {
                Ok(previous) => m.word == expected && previous == m.word,
                Err(seen) => seen == m.word,
            }
        },
        Step::GiveUp { thread } => is_thread(m, thread) && m.threads[thread] is Spinning,
        Step::Put { thread, word } => holds(m, thread) && word != m.taken,
    }
}

/// The state after `step`.
pub open spec fn apply(m: Machine, step: Step) -> Machine {
    match step {
        Step::Load { thread } => Machine {
            threads: m.threads.update(thread, Thread::Spinning { expected: m.word }),
            ..m
        },
        Step::Exchange { thread, exchanged } => Machine {
            word: if exchanged is Ok {
                m.taken
            } else {
                m.word
            },
            threads: m.threads.update(thread, after_exchange(m.taken, exchanged)),
            ..m
        },
        Step::GiveUp { thread } => Machine { threads: m.threads.update(thread, Thread::Idle), ..m },
        Step::Put { thread, word } => Machine {
            word,
            threads: m.threads.update(thread, Thread::Idle),
            history: m.history.push(
                Transfer { thread, taken_out: m.threads[thread]->word, put_in: word },
            ),
            ..m
        },
    }
}

/// Whether each of `steps` can happen in its turn, starting from `m`.
pub open spec fn valid(m: Machine, steps: Seq<Step>) -> bool
    decreases steps.len(),
{
    steps.len() == 0 || (valid(m, steps.drop_last()) && enabled(
        run(m, steps.drop_last()),
        steps.last(),
    ))
}

/// The state after `steps`.
pub open spec fn run(m: Machine, steps: Seq<Step>) -> Machine
    decreases steps.len(),
{
    if steps.len() == 0 {
        m
    } else {
        apply(run(m, steps.drop_last()), steps.last())
    }
}

/// The word that transfer `i` has to take out: the one that the transfer before it put
/// in, or the initial word.
pub open spec fn source(initial: usize, history: Seq<Transfer>, i: int) -> usize {
    if i == 0 {
        initial
    } else {
        history[i - 1].put_in
    }
}

/// The word that the cell owns after the transfers of `history`.
pub open spec fn last_put(initial: usize, history: Seq<Transfer>) -> usize {
    source(initial, history, history.len() as int)
}

/// Each transfer took out what the one before it put in, and put in a word that is not
/// the reserved one.
pub open spec fn chained(taken: usize, initial: usize, history: Seq<Transfer>) -> bool {
    forall|i: int|
        0 <= i < history.len() ==> {
            &&& (#[trigger] history[i]).taken_out == source(initial, history, i)
            &&& history[i].put_in != taken
        }
}

/// What holds of every state that can be reached.
pub open spec fn well_formed(m: Machine) -> bool {
    &&& m.initial != m.taken
    &&& chained(m.taken, m.initial, m.history)
    &&& if m.word != m.taken {
        &&& m.word == last_put(m.initial, m.history)
        &&& forall|t: int| !holds(m, t)
    } else {
        exists|holder: int|
            {
                &&& #[trigger] holds(m, holder)
                &&& m.threads[holder]->word == last_put(m.initial, m.history)
                &&& forall|t: int| holds(m, t) ==> t == holder
            }
    }
}

/// A cell that was just created is well formed.
pub proof fn lemma_start_well_formed(taken: usize, initial: usize, threads: nat)
    requires
        initial != taken,
    ensures
        well_formed(start(taken, initial, threads)),
{
}

/// No step of any thread breaks what holds of a well-formed state.
pub proof fn lemma_step_well_formed(m: Machine, step: Step)
    requires
        well_formed(m),
        enabled(m, step),
    ensures
        well_formed(apply(m, step)),
{
    let after = apply(m, step);
    match step {
        Step::Load { thread } => {
            lemma_bystander(m, step, thread);
        },
        Step::GiveUp { thread } => {
            lemma_bystander(m, step, thread);
        },
        Step::Exchange { thread, exchanged } => {
            match claim_outcome(m.taken, exchanged) {
                Claim::Claimed(word) => {
                    assert(holds(after, thread));
                    assert forall|t: int| holds(after, t) implies t == thread by {
                        if t != thread {
                            assert(holds(m, t));
                        }
                    }
                },
                Claim::Retry(_) => {
                    lemma_bystander(m, step, thread);
                },
            }
        },
        Step::Put { thread, word } => {
            let holder = choose|holder: int|
                {
                    &&& #[trigger] holds(m, holder)
                    &&& m.threads[holder]->word == last_put(m.initial, m.history)
                    &&& forall|t: int| holds(m, t) ==> t == holder
                };
            assert(holds(m, thread));
            assert(thread == holder);
            assert forall|t: int| !holds(after, t) by {
                if holds(after, t) {
                    assert(holds(m, t));
                }
            }
            let n = m.history.len() as int;
            assert forall|i: int| 0 <= i < after.history.len() implies {
                &&& (#[trigger] after.history[i]).taken_out == source(m.initial, after.history, i)
                &&& after.history[i].put_in != m.taken
            } by {
                if i < n {
                    assert(after.history[i] == m.history[i]);
                }
            }
        },
    }
}

/// A step of a thread that neither holds a word before it nor after it leaves the word
/// and the holder as they were.
proof fn lemma_bystander(m: Machine, step: Step, thread: int)
    requires
        well_formed(m),
        enabled(m, step),
        is_thread(m, thread),
        !holds(m, thread),
        !holds(apply(m, step), thread),
        apply(m, step).word == m.word,
        apply(m, step).history == m.history,
        apply(m, step).threads =~= m.threads.update(thread, apply(m, step).threads[thread]),
        apply(m, step).taken == m.taken,
        apply(m, step).initial == m.initial,
    ensures
        well_formed(apply(m, step)),
{
    let after = apply(m, step);
    if m.word != m.taken {
        assert forall|t: int| !holds(after, t) by {
            if holds(after, t) {
                assert(holds(m, t));
            }
        }
    } else {
        let holder = choose|holder: int|
            {
                &&& #[trigger] holds(m, holder)
                &&& m.threads[holder]->word == last_put(m.initial, m.history)
                &&& forall|t: int| holds(m, t) ==> t == holder
            };
        assert(holder != thread);
        assert(holds(after, holder));
        assert forall|t: int| holds(after, t) implies t == holder by {
            assert(holds(m, t));
        }
    }
}

/// Every state that the steps of any threads reach, in any order, is well formed.
pub proof fn lemma_run_well_formed(m: Machine, steps: Seq<Step>)
    requires
        well_formed(m),
        valid(m, steps),
    ensures
        well_formed(run(m, steps)),
    decreases steps.len(),
{
    if steps.len() > 0 {
        lemma_run_well_formed(m, steps.drop_last());
        lemma_step_well_formed(run(m, steps.drop_last()), steps.last());
    }
}

/// The words that the transfers of `history` took out of the cell.
pub open spec fn words_taken_out(history: Seq<Transfer>) -> Multiset<usize>
    decreases history.len(),
{
    if history.len() == 0 {
        Multiset::empty()
    } else {
        words_taken_out(history.drop_last()).insert(history.last().taken_out)
    }
}

/// The words that the transfers of `history` put into the cell.
pub open spec fn words_put_in(history: Seq<Transfer>) -> Multiset<usize>
    decreases history.len(),
{
    if history.len() == 0 {
        Multiset::empty()
    } else {
        words_put_in(history.drop_last()).insert(history.last().put_in)
    }
}

/// The steps of one whole operation that no other thread interferes with: the thread
/// loads `held`, exchanges it for the reserved word, and puts `put`.
pub open spec fn operation(thread: int, held: usize, put: usize) -> Seq<Step> {
    seq![
        Step::Load { thread },
        Step::Exchange { thread, exchanged: Ok(held) },
        Step::Put { thread, word: put },
    ]
}

/// Mutual exclusion. However the steps of the threads interleave, two threads never
/// hold a word at the same time; while a thread holds one, the cell's word is the
/// reserved one; and the word that a thread holds, which is the word it decodes, is
/// never the reserved one.
pub proof fn lemma_mutual_exclusion(
    taken: usize,
    initial: usize,
    threads: nat,
    steps: Seq<Step>,
    a: int,
    b: int,
)
    requires
        initial != taken,
        valid(start(taken, initial, threads), steps),
    ensures
        ({
            let m = run(start(taken, initial, threads), steps);
            &&& holds(m, a) && holds(m, b) ==> a == b
            &&& holds(m, a) ==> m.word == taken && m.threads[a]->word != taken
            &&& m.word == taken ==> exists|t: int| holds(m, t)
        }),
{
    let m = run(start(taken, initial, threads), steps);
    lemma_start_well_formed(taken, initial, threads);
    lemma_run_well_formed(start(taken, initial, threads), steps);
    lemma_run_keeps_constants(start(taken, initial, threads), steps);
    lemma_last_put_not_taken(m);
}

/// Linearization. However the steps of the threads interleave, the completed transfers
/// form one chain: the first took out the word that the cell was created with, and
/// every other one took out exactly the word that the transfer before it put in. A word
/// that a thread holds is the one that the last transfer put in, and so is the word of a
/// cell that no thread holds.
pub proof fn lemma_linearized(taken: usize, initial: usize, threads: nat, steps: Seq<Step>)
    requires
        initial != taken,
        valid(start(taken, initial, threads), steps),
    ensures
        ({
            let m = run(start(taken, initial, threads), steps);
            &&& m.history.len() > 0 ==> m.history[0].taken_out == initial
            &&& forall|i: int|
                0 < i < m.history.len() ==> (#[trigger] m.history[i]).taken_out == m.history[i
                    - 1].put_in
            &&& forall|t: int| holds(m, t) ==> m.threads[t]->word == last_put(initial, m.history)
            &&& m.word != taken ==> m.word == last_put(initial, m.history)
        }),
{
    let m = run(start(taken, initial, threads), steps);
    lemma_start_well_formed(taken, initial, threads);
    lemma_run_well_formed(start(taken, initial, threads), steps);
    lemma_run_keeps_constants(start(taken, initial, threads), steps);
    assert forall|i: int| 0 < i < m.history.len() implies (#[trigger] m.history[i]).taken_out
        == m.history[i - 1].put_in by {
        assert(m.history[i].taken_out == source(initial, m.history, i));
    }
}

/// The survivor. The word of a cell that no thread holds is the word it was created
/// with, if no transfer was completed, and else the word that the last transfer put in:
/// never a word that nobody stored.
pub proof fn lemma_survivor(taken: usize, initial: usize, threads: nat, steps: Seq<Step>)
    requires
        initial != taken,
        valid(start(taken, initial, threads), steps),
        run(start(taken, initial, threads), steps).word != taken,
    ensures
        ({
            let m = run(start(taken, initial, threads), steps);
            if m.history.len() == 0 {
                m.word == initial
            } else {
                m.word == m.history.last().put_in
            }
        }),
{
    lemma_linearized(taken, initial, threads, steps);
}

/// Conservation. The word that the cell was created with and the words that were put
/// in are, counted with their number, the words that were taken out and the one word
/// that remains: no word is lost and none is handed out twice.
pub proof fn lemma_conservation(taken: usize, initial: usize, threads: nat, steps: Seq<Step>)
    requires
        initial != taken,
        valid(start(taken, initial, threads), steps),
    ensures
        ({
            let m = run(start(taken, initial, threads), steps);
            words_put_in(m.history).insert(initial) == words_taken_out(m.history).insert(
                last_put(initial, m.history),
            )
        }),
{
    let m = run(start(taken, initial, threads), steps);
    lemma_start_well_formed(taken, initial, threads);
    lemma_run_well_formed(start(taken, initial, threads), steps);
    lemma_run_keeps_constants(start(taken, initial, threads), steps);
    lemma_chain_conserves(taken, initial, m.history);
}

/// Whether every transfer of `history` put back the word it took out, as `get` does.
pub open spec fn only_reads(history: Seq<Transfer>) -> bool {
    forall|i: int| 0 <= i < history.len() ==> (#[trigger] history[i]).put_in == history[i].taken_out
}

/// Reading leaves the cell as it is. If every transfer put back the word it took out,
/// as `get` does, then every one of them took out the word that the cell was created
/// with, however many there were and however their steps interleaved, and that word is
/// still the one the cell owns.
pub proof fn lemma_round_trip(taken: usize, initial: usize, threads: nat, steps: Seq<Step>)
    requires
        initial != taken,
        valid(start(taken, initial, threads), steps),
        only_reads(run(start(taken, initial, threads), steps).history),
    ensures
        ({
            let m = run(start(taken, initial, threads), steps);
            &&& forall|i: int|
                0 <= i < m.history.len() ==> (#[trigger] m.history[i]).taken_out == initial
            &&& last_put(initial, m.history) == initial
            &&& m.word != taken ==> m.word == initial
        }),
{
    let m = run(start(taken, initial, threads), steps);
    lemma_linearized(taken, initial, threads, steps);
    lemma_read_chain(initial, m.history, m.history.len() as int);
    if m.history.len() > 0 {
        assert(m.history[m.history.len() - 1].taken_out == initial);
    }
}

/// One operation that no other thread interferes with, on a cell that no thread holds:
/// its steps can happen, it takes out the word that the cell owned, and leaves the cell
/// with the word it put and no thread holding.
pub proof fn lemma_operation(m: Machine, thread: int, put: usize)
    requires
        well_formed(m),
        m.word != m.taken,
        is_thread(m, thread),
        m.threads[thread] is Idle,
        put != m.taken,
    ensures
        valid(m, operation(thread, m.word, put)),
        run(m, operation(thread, m.word, put)) == (Machine {
            word: put,
            history: m.history.push(Transfer { thread, taken_out: m.word, put_in: put }),
            ..m
        }),
        well_formed(run(m, operation(thread, m.word, put))),
{
    let steps = operation(thread, m.word, put);
    let one = steps.drop_last();
    let none = one.drop_last();
    assert(none.drop_last() =~= Seq::<Step>::empty());
    let m0 = run(m, none.drop_last());
    assert(m0 == m);
    let m1 = run(m, none);
    assert(none.last() == Step::Load { thread });
    assert(m1 == apply(m, Step::Load { thread }));
    assert(valid(m, none.drop_last()));
    assert(valid(m, none));
    let m2 = run(m, one);
    assert(one.last() == Step::Exchange { thread, exchanged: Ok(m.word) });
    assert(m2 == apply(m1, Step::Exchange { thread, exchanged: Ok(m.word) }));
    assert(valid(m, one));
    let m3 = run(m, steps);
    assert(steps.last() == Step::Put { thread, word: put });
    assert(m3 == apply(m2, Step::Put { thread, word: put }));
    assert(valid(m, steps));
    assert(m3.threads =~= m.threads);
    lemma_run_well_formed(m, steps);
}

/// Exchange. On a cell that no thread holds, an operation that stores `new` takes out
/// exactly the word that the cell owned before it; an operation after it that puts back
/// what it takes, as `get` does, takes out `new` and leaves `new` in the cell.
pub proof fn lemma_exchange(m: Machine, setter: int, getter: int, new: usize)
    requires
        well_formed(m),
        m.word != m.taken,
        is_thread(m, setter),
        m.threads[setter] is Idle,
        is_thread(m, getter),
        m.threads[getter] is Idle,
        new != m.taken,
    ensures
        ({
            let after_set = run(m, operation(setter, m.word, new));
            let after_get = run(after_set, operation(getter, new, new));
            &&& valid(m, operation(setter, m.word, new))
            &&& after_set.history.last().taken_out == m.word
            &&& after_set.word == new
            &&& valid(after_set, operation(getter, new, new))
            &&& after_get.history.last().taken_out == new
            &&& after_get.word == new
        }),
{
    lemma_operation(m, setter, new);
    let after_set = run(m, operation(setter, m.word, new));
    lemma_operation(after_set, getter, new);
}

/// Whether `attempts`, made after a load of `first`, are exchange steps of one thread
/// of the model: the first expects the word that the thread expects after its load,
/// every other one expects the word that the thread expects after the exchange before
/// it, and after the last the thread holds the word that it claimed, which is not the
/// reserved one, or expects the word to try again with.
pub open spec fn are_exchanges(taken: usize, first: usize, attempts: Seq<Attempt>) -> bool {
    &&& attempts[0].expected == first
    &&& forall|i: int|
        0 < i < attempts.len() ==> after_exchange(taken, attempts[i - 1].reported) == (
        Thread::Spinning { expected: (#[trigger] attempts[i]).expected })
    &&& match claim_outcome(taken, attempts.last().reported) {
        Claim::Claimed(word) => {
            &&& after_exchange(taken, attempts.last().reported) == (Thread::Holding { word })
            &&& word != taken
        },
        Claim::Retry(expected) => after_exchange(taken, attempts.last().reported) == (
        Thread::Spinning { expected }),
    }
}

/// The attempts of a claim are exchange steps of one thread of the model, whenever
/// they follow the protocol, as the contract of the cell's claim says they do.
pub proof fn lemma_attempts_are_exchanges(taken: usize, first: usize, attempts: Seq<Attempt>)
    requires
        follows_protocol(taken, first, attempts),
        attempts.len() > 0,
    ensures
        are_exchanges(taken, first, attempts),
{
}

proof fn lemma_run_keeps_constants(m: Machine, steps: Seq<Step>)
    ensures
        run(m, steps).taken == m.taken,
        run(m, steps).initial == m.initial,
    decreases steps.len(),
{
    if steps.len() > 0 {
        lemma_run_keeps_constants(m, steps.drop_last());
    }
}

proof fn lemma_last_put_not_taken(m: Machine)
    requires
        well_formed(m),
    ensures
        last_put(m.initial, m.history) != m.taken,
{
    if m.history.len() > 0 {
        assert(m.history[m.history.len() - 1].put_in != m.taken);
    }
}

proof fn lemma_chain_conserves(taken: usize, initial: usize, history: Seq<Transfer>)
    requires
        chained(taken, initial, history),
    ensures
        words_put_in(history).insert(initial) == words_taken_out(history).insert(
            last_put(initial, history),
        ),
    decreases history.len(),
{
    if history.len() > 0 {
        let before = history.drop_last();
        assert forall|i: int| 0 <= i < before.len() implies {
            &&& (#[trigger] before[i]).taken_out == source(initial, before, i)
            &&& before[i].put_in != taken
        } by {
            assert(before[i] == history[i]);
        }
        lemma_chain_conserves(taken, initial, before);
        assert(history.last().taken_out == last_put(initial, before)) by {
            assert(history[history.len() - 1].taken_out == source(
                initial,
                history,
                history.len() - 1,
            ));
        }
        assert(words_put_in(history).insert(initial) =~= words_put_in(before).insert(
            initial,
        ).insert(history.last().put_in));
        assert(words_taken_out(history).insert(last_put(initial, history)) =~= words_taken_out(
            before,
        ).insert(last_put(initial, before)).insert(history.last().put_in));
    }
}

proof fn lemma_read_chain(initial: usize, history: Seq<Transfer>, n: int)
    requires
        0 <= n <= history.len(),
        forall|i: int|
            0 <= i < history.len() ==> (#[trigger] history[i]).taken_out == source(
                initial,
                history,
                i,
            ),
        only_reads(history),
    ensures
        forall|i: int| 0 <= i < n ==> (#[trigger] history[i]).taken_out == initial,
    decreases n,
{
    if n > 0 {
        lemma_read_chain(initial, history, n - 1);
        assert(history[n - 1].taken_out == source(initial, history, n - 1));
        if n > 1 {
            assert(history[n - 2].put_in == history[n - 2].taken_out);
        }
    }
}


} // verus!
