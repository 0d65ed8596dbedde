//! How a batch of trials is split between workers, and how each worker's
//! generator is seeded.
use crate::rng::{seed_key, SimRng};
use vstd::prelude::*;
use vstd::wrapping::u64_specs;

verus! {

/// The number of workers a batch of `trials` uses: one for a single trial;
/// otherwise the requested count when it is positive, else the machine's
/// available parallelism, and never more than the number of trials.
pub open spec fn spec_effective_threads(
    trials: usize,
    requested_threads: Option<usize>,
    available_parallelism: usize,
) -> usize {
    if trials == 1 {
        1
    } else {
        let wanted = match requested_threads {
            Some(count) => if count > 0 {
                count
            } else {
                available_parallelism
            },
            None => available_parallelism,
        };
        if wanted < trials {
            wanted
        } else {
            trials
        }
    }
}

/// The number of workers a batch of `trials` uses. `available_parallelism` is
/// what the machine offers (at least one).
pub fn effective_threads(
    trials: usize,
    requested_threads: Option<usize>,
    available_parallelism: usize,
) -> (r: usize)
    requires
        available_parallelism >= 1,
    ensures
        r == spec_effective_threads(trials, requested_threads, available_parallelism),
        1 <= trials ==> 1 <= r <= trials,
{
    if trials == 1 {
        return 1;
    }
    let wanted = match requested_threads {
        Some(count) => if count > 0 {
            count
        } else {
            available_parallelism
        },
        None => available_parallelism,
    };
    if wanted < trials {
        wanted
    } else {
        trials
    }
}

/// The SplitMix64 finaliser, in arithmetic modulo 2^64.
pub open spec fn spec_splitmix64(value: u64) -> u64 {
    let a = u64_specs::wrapping_add(value, 0x9E3779B97F4A7C15u64);
    let b = u64_specs::wrapping_mul(a ^ (a >> 30u64), 0xBF58476D1CE4E5B9u64);
    let c = u64_specs::wrapping_mul(b ^ (b >> 27u64), 0x94D049BB133111EBu64);
    c ^ (c >> 31u64)
}

/// SplitMix64: mixes a seed into a well-spread 64-bit value.
pub fn splitmix64(value: u64) -> (r: u64)
    ensures
        r == spec_splitmix64(value),
{
    let value = value.wrapping_add(0x9E3779B97F4A7C15);
    let mut mixed = value;
    mixed = (mixed ^ (mixed >> 30)).wrapping_mul(0xBF58476D1CE4E5B9);
    mixed = (mixed ^ (mixed >> 27)).wrapping_mul(0x94D049BB133111EB);
    mixed ^ (mixed >> 31)
}

/// The number of trials worker `worker` runs when `trials` are split between
/// `threads` workers: an equal share, plus one for the first `trials % threads`.
pub open spec fn chunk_size(trials: int, threads: int, worker: int) -> int {
    trials / threads + if worker < trials % threads {
        1int
    } else {
        0int
    }
}

/// The seed of worker `worker`'s generator in a seeded batch: `splitmix64(seed ^ worker)`.
pub open spec fn worker_seed(seed: u64, worker: int) -> u64 {
    spec_splitmix64(seed ^ (worker as u64))
}

/// The generator of worker `worker`: seeded from `splitmix64(seed ^ worker)`
/// when there is a seed, from the operating system otherwise.
pub fn worker_rng(seed: Option<u64>, worker: usize) -> (r: SimRng)
    ensures
        r.drawn() == 0,
        seed matches Some(s) ==> r.key() == seed_key(worker_seed(s, worker as int)),
{
    match seed {
        Some(seed) => SimRng::new(Some(splitmix64(seed ^ (worker as u64)))),
        None => SimRng::new(None),
    }
}

/// `samples` are trials run one after another on one stream, from word `pos`
/// to word `end`: each trial starts where the previous one stopped.
/// `outcome(p, x, q)` says that a trial starting at word `p` gives `x` and
/// stops at word `q`.
pub open spec fn chain_to<T>(
    outcome: spec_fn(nat, T, nat) -> bool,
    pos: nat,
    samples: Seq<T>,
    end: nat,
) -> bool
    decreases samples.len(),
{
    if samples.len() == 0 {
        pos == end
    } else {
        exists|mid: nat|
            #![trigger outcome(mid, samples.last(), end)]
            chain_to(outcome, pos, samples.drop_last(), mid) && outcome(mid, samples.last(), end)
    }
}

/// A trial's outcome and stopping point are fixed by where it starts.
pub open spec fn deterministic<T>(outcome: spec_fn(nat, T, nat) -> bool) -> bool {
    forall|p: nat, x1: T, q1: nat, x2: T, q2: nat|
        #![trigger outcome(p, x1, q1), outcome(p, x2, q2)]
        outcome(p, x1, q1) && outcome(p, x2, q2) ==> x1 == x2 && q1 == q2
}

/// Appending a trial that starts where a chain stops extends the chain.
pub proof fn lemma_chain_push<T>(
    outcome: spec_fn(nat, T, nat) -> bool,
    pos: nat,
    samples: Seq<T>,
    mid: nat,
    x: T,
    end: nat,
)
    requires
        chain_to(outcome, pos, samples, mid),
        outcome(mid, x, end),
    ensures
        chain_to(outcome, pos, samples.push(x), end),
{
    assert(samples.push(x).drop_last() =~= samples);
    assert(samples.push(x).last() == x);
}

/// Chains of the same length from the same start, made of deterministic
/// trials, are equal and stop at the same word.
pub proof fn lemma_chain_unique<T>(
    outcome: spec_fn(nat, T, nat) -> bool,
    pos: nat,
    a: Seq<T>,
    end_a: nat,
    b: Seq<T>,
    end_b: nat,
)
    requires
        deterministic(outcome),
        a.len() == b.len(),
        chain_to(outcome, pos, a, end_a),
        chain_to(outcome, pos, b, end_b),
    ensures
        a == b,
        end_a == end_b,
    decreases a.len(),
{
    if a.len() == 0 {
        assert(a =~= b);
    } else {
        let mid_a = choose|mid: nat|
            #![trigger outcome(mid, a.last(), end_a)]
            chain_to(outcome, pos, a.drop_last(), mid) && outcome(mid, a.last(), end_a);
        let mid_b = choose|mid: nat|
            #![trigger outcome(mid, b.last(), end_b)]
            chain_to(outcome, pos, b.drop_last(), mid) && outcome(mid, b.last(), end_b);
        lemma_chain_unique(outcome, pos, a.drop_last(), mid_a, b.drop_last(), mid_b);
        assert(outcome(mid_a, a.last(), end_a) && outcome(mid_a, b.last(), end_b));
        assert(a =~= a.drop_last().push(a.last()));
        assert(b =~= b.drop_last().push(b.last()));
    }
}

/// The trials of one worker's stream: `outcome(s, p, x, q)` read with the
/// stream seed `s` fixed.
pub open spec fn on_stream<T>(outcome: spec_fn(u64, nat, T, nat) -> bool, s: u64) -> spec_fn(
    nat,
    T,
    nat,
) -> bool {
    |p: nat, x: T, q: nat| outcome(s, p, x, q)
}

/// `samples` are the trials of workers `0..workers`, worker after worker, of a
/// batch of `trials` split between `threads` workers: worker `w` runs
/// `chunk_size(trials, threads, w)` trials on the stream of
/// `worker_seed(seed, w)`, from the start of that stream.
pub open spec fn workers_output<T>(
    outcome: spec_fn(u64, nat, T, nat) -> bool,
    seed: u64,
    trials: int,
    threads: int,
    workers: nat,
    samples: Seq<T>,
) -> bool
    decreases workers,
{
    if workers == 0 {
        samples.len() == 0
    } else {
        let w = workers - 1;
        let start = samples.len() - chunk_size(trials, threads, w);
        &&& 0 <= start <= samples.len()
        &&& workers_output(outcome, seed, trials, threads, w as nat, samples.take(start))
        &&& exists|end: nat|
            #[trigger] chain_to(on_stream(outcome, worker_seed(seed, w)), 0, samples.skip(start), end)
    }
}

/// Adding the chain of the next worker to the output of the workers before it.
pub proof fn lemma_workers_push<T>(
    outcome: spec_fn(u64, nat, T, nat) -> bool,
    seed: u64,
    trials: int,
    threads: int,
    workers: nat,
    samples: Seq<T>,
    chunk: Seq<T>,
    end: nat,
)
    requires
        workers_output(outcome, seed, trials, threads, workers, samples),
        chunk.len() == chunk_size(trials, threads, workers as int),
        chain_to(on_stream(outcome, worker_seed(seed, workers as int)), 0, chunk, end),
    ensures
        workers_output(outcome, seed, trials, threads, workers + 1, samples + chunk),
{
    let all = samples + chunk;
    assert(all.take(samples.len() as int) =~= samples);
    assert(all.skip(samples.len() as int) =~= chunk);
}

/// A seeded batch is fixed by its parameters: outputs of the same workers, made
/// of deterministic trials, are equal.
pub proof fn lemma_workers_unique<T>(
    outcome: spec_fn(u64, nat, T, nat) -> bool,
    seed: u64,
    trials: int,
    threads: int,
    workers: nat,
    a: Seq<T>,
    b: Seq<T>,
)
    requires
        forall|s: u64| #[trigger] deterministic(on_stream(outcome, s)),
        workers_output(outcome, seed, trials, threads, workers, a),
        workers_output(outcome, seed, trials, threads, workers, b),
    ensures
        a == b,
    decreases workers,
{
    if workers == 0 {
        assert(a =~= b);
    } else {
        let w = workers - 1;
        let start_a = a.len() - chunk_size(trials, threads, w);
        let start_b = b.len() - chunk_size(trials, threads, w);
        lemma_workers_unique(outcome, seed, trials, threads, w as nat, a.take(start_a), b.take(start_b));
        assert(a.take(start_a).len() == start_a && b.take(start_b).len() == start_b);
        let stream = on_stream(outcome, worker_seed(seed, w));
        let end_a = choose|end: nat| #[trigger] chain_to(stream, 0, a.skip(start_a), end);
        let end_b = choose|end: nat| #[trigger] chain_to(stream, 0, b.skip(start_b), end);
        assert(deterministic(stream));
        lemma_chain_unique(stream, 0, a.skip(start_a), end_a, b.skip(start_b), end_b);
        assert(a =~= a.take(start_a) + a.skip(start_a));
        assert(b =~= b.take(start_b) + b.skip(start_b));
    }
}

/// A chain's first `k` trials form a chain, and its `k`-th trial starts where
/// they stop.
pub proof fn lemma_chain_prefix<T>(
    outcome: spec_fn(nat, T, nat) -> bool,
    pos: nat,
    samples: Seq<T>,
    end: nat,
    k: int,
)
    requires
        chain_to(outcome, pos, samples, end),
        0 <= k < samples.len(),
    ensures
        exists|mid: nat, next: nat|
            #![trigger outcome(mid, samples[k], next)]
            chain_to(outcome, pos, samples.take(k), mid) && outcome(mid, samples[k], next),
    decreases samples.len(),
{
    let mid = choose|mid: nat|
        #![trigger outcome(mid, samples.last(), end)]
        chain_to(outcome, pos, samples.drop_last(), mid) && outcome(mid, samples.last(), end);
    if k == samples.len() - 1 {
        assert(samples.take(k) =~= samples.drop_last());
        assert(outcome(mid, samples[k], end));
    } else {
        lemma_chain_prefix(outcome, pos, samples.drop_last(), mid, k);
        assert(samples.drop_last().take(k) =~= samples.take(k));
        assert(samples.drop_last()[k] == samples[k]);
    }
}

/// Each worker of a batch's output ran a full chain of its share of trials on
/// its stream.
pub proof fn lemma_workers_chunk<T>(
    outcome: spec_fn(u64, nat, T, nat) -> bool,
    seed: u64,
    trials: int,
    threads: int,
    workers: nat,
    samples: Seq<T>,
    w: int,
)
    requires
        workers_output(outcome, seed, trials, threads, workers, samples),
        0 <= w < workers,
    ensures
        exists|chunk: Seq<T>, end: nat|
            #![trigger chain_to(on_stream(outcome, worker_seed(seed, w)), 0, chunk, end)]
            chunk.len() == chunk_size(trials, threads, w) && chain_to(
                on_stream(outcome, worker_seed(seed, w)),
                0,
                chunk,
                end,
            ),
    decreases workers,
{
    let last = workers - 1;
    let start = samples.len() - chunk_size(trials, threads, last);
    if w == last {
        let chunk = samples.skip(start);
        let end = choose|end: nat| #[trigger] chain_to(on_stream(outcome, worker_seed(seed, last)), 0, chunk, end);
        assert(chunk.len() == chunk_size(trials, threads, w));
    } else {
        lemma_workers_chunk(outcome, seed, trials, threads, last as nat, samples.take(start), w);
    }
}

/// The samples of chunks, chunk after chunk.
pub open spec fn concat_chunks<T>(chunks: Seq<Vec<T>>) -> Seq<T>
    decreases chunks.len(),
{
    if chunks.len() == 0 {
        Seq::empty()
    } else {
        concat_chunks(chunks.drop_last()) + chunks.last()@
    }
}

/// The samples of chunks, chunk after chunk.
pub fn concat<T: Copy>(chunks: &Vec<Vec<T>>) -> (r: Vec<T>)
    ensures
        r@ == concat_chunks(chunks@),
{
    let mut samples: Vec<T> = Vec::new();
    let mut i: usize = 0;
    assert(chunks@.subrange(0, 0) =~= Seq::<Vec<T>>::empty());
    while i < chunks.len()
        invariant
            i <= chunks.len(),
            samples@ == concat_chunks(chunks@.subrange(0, i as int)),
        decreases chunks.len() - i,
    {
        let ghost before = samples@;
        let chunk = &chunks[i];
        let mut j: usize = 0;
        assert(chunk@.subrange(0, 0) =~= Seq::<T>::empty());
        assert(samples@ =~= before + chunk@.subrange(0, 0));
        while j < chunk.len()
            invariant
                j <= chunk.len(),
                samples@ == before + chunk@.subrange(0, j as int),
            decreases chunk.len() - j,
        {
            samples.push(chunk[j]);
            j = j + 1;
            assert(samples@ =~= before + chunk@.subrange(0, j as int));
        }
        assert(chunk@.subrange(0, j as int) =~= chunk@);
        assert(chunks@.subrange(0, i + 1).drop_last() =~= chunks@.subrange(0, i as int));
        i = i + 1;
    }
    assert(chunks@.subrange(0, chunks.len() as int) =~= chunks@);
    samples
}

} // verus!
