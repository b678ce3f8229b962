//! Strategy parameter optimization.
//!
//! The optimizer runs one backtest per parameter combination and reports, for
//! every combination, the balance it ended with or the error that ended it.
//! The combinations are cut into contiguous chunks, one per worker; a chunk is
//! played on one engine, which is reset between combinations.

use vstd::prelude::*;
use std::marker::PhantomData;
use crate::engine::candle::Candle;
use crate::engine::{Backtest, Strategy};
use crate::errors::Error;

verus! {

/// What a parameter space generates: a value of its own for each space.
pub struct Generated<PS: ParameterCombination> {
    /// The combinations, in the order of their generation.
    pub all: Seq<PS::T>,
}

/// Trait defining how to generate parameter combinations for optimization.
pub trait ParameterCombination: Sized {
    /// Type representing a single parameter combination.
    type T: Clone + Sync;

    /// The parameter space: the combinations that `generate` returns, in
    /// its order. A space says here what it holds; of one that does not,
    /// nothing is known but that it is the same at every call.
    open spec fn space() -> Seq<Self::T> {
        arbitrary::<Generated<Self>>().all
    }

    /// Generates all possible parameter combinations to test: the whole
    /// space, the same at every call.
    fn generate() -> (all: Vec<Self::T>)
        ensures
            all@ == Self::space(),
    ;
}

/// Turns a parameter combination into the strategy that is run for it.
pub trait Transformer<P> {
    /// The strategy built for one combination, with the state it keeps
    /// during its run.
    type Output: Strategy;

    /// Builds the strategy for `combination`, or says why it cannot be built.
    fn transform(&self, combination: &P) -> Result<Self::Output, Error>;
}

/// A combination whose run ended with an error.
pub struct Failure<P> {
    /// The combination.
    pub combination: P,
    /// The balance when the run ended.
    pub balance: i128,
    /// The error that ended the run.
    pub error: Error,
}

/// What the optimizer reports: the combinations that ran to the end, each
/// with its final balance, and those that did not.
pub struct Outcomes<P> {
    /// The combinations that ran to the end, with their final balances.
    pub results: Vec<(P, i128)>,
    /// The combinations whose strategy could not be built or whose run failed.
    pub failures: Vec<Failure<P>>,
}

/// The combinations of `results`, in order.
pub open spec fn succeeded<P>(results: Seq<(P, i128)>) -> Seq<P> {
    results.map_values(|entry: (P, i128)| entry.0)
}

/// The combinations of `failures`, in order.
pub open spec fn failed<P>(failures: Seq<Failure<P>>) -> Seq<P> {
    failures.map_values(|failure: Failure<P>| failure.combination)
}

/// Whether `whole` is `left` and `right` shuffled together: every item of
/// `whole` is taken from the front of one of the two, which are used up.
pub open spec fn interleaves<P>(left: Seq<P>, right: Seq<P>, whole: Seq<P>) -> bool
    decreases whole.len(),
{
    if whole.len() == 0 {
        left.len() == 0 && right.len() == 0
    } else {
        ||| left.len() > 0 && left.last() == whole.last() && interleaves(
            left.drop_last(),
            right,
            whole.drop_last(),
        )
        ||| right.len() > 0 && right.last() == whole.last() && interleaves(
            left,
            right.drop_last(),
            whole.drop_last(),
        )
    }
}

impl<P> Outcomes<P> {
    /// Whether the outcomes hold each of `combinations` exactly once, those
    /// that ran to the end and those that failed each in their given order.
    pub open spec fn covers(&self, combinations: Seq<P>) -> bool {
        interleaves(succeeded(self.results@), failed(self.failures@), combinations)
    }

    /// Outcomes of no combination.
    pub fn new() -> (r: Self)
        ensures
            r.results@.len() == 0,
            r.failures@.len() == 0,
            r.covers(Seq::empty()),
    {
        Outcomes { results: Vec::new(), failures: Vec::new() }
    }

    /// Files `combination` by the outcome of its run: with its balance among
    /// the results if the run succeeded, with its balance and the error among
    /// the failures if it did not. The other list is unchanged.
    pub fn record(&mut self, combination: P, balance: i128, outcome: Result<(), Error>)
        ensures
            outcome is Ok ==> final(self).results@ == old(self).results@.push(
                (combination, balance),
            ) && final(self).failures@ == old(self).failures@,
            outcome matches Err(e) ==> final(self).failures@ == old(self).failures@.push(
                (Failure { combination, balance, error: e }),
            ) && final(self).results@ == old(self).results@,
    {
        match outcome {
            Ok(_) => {
                self.results.push((combination, balance));
            },
            Err(error) => {
                self.failures.push(Failure { combination, balance, error });
            },
        }
    }

    /// Joins the outcomes of a later chunk to these: its results behind the
    /// results, its failures behind the failures.
    pub fn append(&mut self, part: Outcomes<P>)
        ensures
            final(self).results@ == old(self).results@ + part.results@,
            final(self).failures@ == old(self).failures@ + part.failures@,
    {
        let mut part = part;
        self.results.append(&mut part.results);
        self.failures.append(&mut part.failures);
    }

    /// Joins the outcomes of chunks in chunk order. Where a chunk failed, the
    /// error of the first that did is returned.
    pub fn join(parts: Vec<Result<Outcomes<P>, Error>>) -> (r: Result<Outcomes<P>, Error>)
        ensures
            match joined(parts@) {
                Err(e) => r == Err::<Outcomes<P>, Error>(e),
                Ok(lists) => r is Ok && r->Ok_0.results@ == lists.0 && r->Ok_0.failures@
                    == lists.1,
            },
    {
        let mut outcomes = Outcomes::new();
        let ghost all = parts@;
        assert(outcomes.results@ =~= Seq::<(P, i128)>::empty());
        assert(outcomes.failures@ =~= Seq::<Failure<P>>::empty());
        assert(all.take(0) =~= Seq::<Result<Outcomes<P>, Error>>::empty());
        for part in it: parts
            invariant
                it.seq() == all,
                all == parts@,
                joined(all.take(it.index() as int)) == Ok::<
                    (Seq<(P, i128)>, Seq<Failure<P>>),
                    Error,
                >((outcomes.results@, outcomes.failures@)),
        {
            proof {
                assert(all.take(it.index() + 1).drop_last() =~= all.take(it.index() as int));
                assert(all.take(it.index() + 1).last() == part);
            }
            match part {
                Err(e) => {
                    proof {
                        lemma_joined_error(all, it.index() + 1);
                    }
                    return Err(e);
                },
                Ok(part) => {
                    outcomes.append(part);
                },
            }
        }
        proof {
            assert(all.take(all.len() as int) =~= all);
        }
        Ok(outcomes)
    }
}

/// Once a chunk has failed, the chunks behind it change nothing: the first
/// error is the one that comes out.
pub proof fn lemma_joined_error<P>(parts: Seq<Result<Outcomes<P>, Error>>, upto: int)
    requires
        0 <= upto <= parts.len(),
        joined(parts.take(upto)) is Err,
    ensures
        joined(parts) == joined(parts.take(upto)),
    decreases parts.len() - upto,
{
    if upto == parts.len() {
        assert(parts.take(upto) =~= parts);
    } else {
        assert(parts.take(upto + 1).drop_last() =~= parts.take(upto));
        lemma_joined_error(parts, upto + 1);
    }
}

/// Chunks that all succeeded, each holding its combinations exactly once,
/// join to outcomes that hold the combinations of all chunks exactly once.
pub proof fn lemma_join_covers<P>(parts: Seq<Result<Outcomes<P>, Error>>, chunks: Seq<Seq<P>>)
    requires
        parts.len() == chunks.len(),
        forall|i: int|
            0 <= i < parts.len() ==> (#[trigger] parts[i]) is Ok && parts[i]->Ok_0.covers(
                chunks[i],
            ),
    ensures
        joined(parts) is Ok,
        interleaves(
            succeeded(joined(parts)->Ok_0.0),
            failed(joined(parts)->Ok_0.1),
            chained(chunks),
        ),
    decreases parts.len(),
{
    if parts.len() > 0 {
        let front = parts.drop_last();
        let part = parts.last()->Ok_0;
        assert(parts.last() is Ok && part.covers(chunks.last())) by {
            assert(parts[parts.len() - 1] is Ok);
        }
        assert forall|i: int| 0 <= i < front.len() implies (#[trigger] front[i]) is Ok
            && front[i]->Ok_0.covers(chunks.drop_last()[i]) by {
            assert(parts[i] is Ok);
        }
        lemma_join_covers(front, chunks.drop_last());
        let lists = joined(front)->Ok_0;
        lemma_interleaves_concat(
            succeeded(lists.0),
            failed(lists.1),
            chained(chunks.drop_last()),
            succeeded(part.results@),
            failed(part.failures@),
            chunks.last(),
        );
        assert(succeeded(lists.0 + part.results@) =~= succeeded(lists.0) + succeeded(
            part.results@,
        ));
        assert(failed(lists.1 + part.failures@) =~= failed(lists.1) + failed(part.failures@));
    }
}

/// Outcomes that hold the combinations of one run, joined to outcomes that
/// hold those of a later run, hold the combinations of both.
pub proof fn lemma_append_covers<P>(
    first: Outcomes<P>,
    played: Seq<P>,
    part: Outcomes<P>,
    chunk: Seq<P>,
    joined: Outcomes<P>,
)
    requires
        first.covers(played),
        part.covers(chunk),
        joined.results@ == first.results@ + part.results@,
        joined.failures@ == first.failures@ + part.failures@,
    ensures
        joined.covers(played + chunk),
{
    lemma_interleaves_concat(
        succeeded(first.results@),
        failed(first.failures@),
        played,
        succeeded(part.results@),
        failed(part.failures@),
        chunk,
    );
    assert(succeeded(first.results@ + part.results@) =~= succeeded(first.results@) + succeeded(
        part.results@,
    ));
    assert(failed(first.failures@ + part.failures@) =~= failed(first.failures@) + failed(
        part.failures@,
    ));
}

/// What is reported of a run that ended with `outcome`: the balance that the
/// engine holds, and the outcome as it came. The engine is then reset for the
/// next combination.
pub fn report(backtest: &mut Backtest, outcome: Result<(), Error>) -> (r: (
    i128,
    Result<(), Error>,
))
    ensures
        r.0 == old(backtest)@.book.wallet.balance,
        r.1 == outcome,
        final(backtest)@ == old(backtest)@.reset(),
{
    let balance = backtest.balance();
    backtest.reset();
    (balance, outcome)
}

/// Plays one combination on an engine that is as it was created: runs the
/// strategy over the whole series and reports the run, as [`report`] does.
pub fn play<S: Strategy>(backtest: &mut Backtest, strategy: &mut S) -> (r: (
    i128,
    Result<(), Error>,
))
    requires
        old(backtest)@ == old(backtest)@.reset(),
    ensures
        final(backtest)@ == final(backtest)@.reset(),
{
    let outcome = backtest.run(strategy);
    report(backtest, outcome)
}

/// The items of each chunk of `chunks`.
pub open spec fn views<P>(chunks: Seq<Vec<P>>) -> Seq<Seq<P>> {
    chunks.map_values(|chunk: Vec<P>| chunk@)
}

/// The chunks of `chunks` one behind the other.
pub open spec fn chained<P>(chunks: Seq<Seq<P>>) -> Seq<P>
    decreases chunks.len(),
{
    if chunks.len() == 0 {
        Seq::empty()
    } else {
        chained(chunks.drop_last()) + chunks.last()
    }
}

/// Cuts `combinations` into contiguous chunks of `size` items, the last of
/// which may be shorter. A size of 0 counts as 1.
pub fn split_chunks<P>(combinations: Vec<P>, size: usize) -> (chunks: Vec<Vec<P>>)
    ensures
        chained(views(chunks@)) == combinations@,
        forall|i: int|
            0 <= i < chunks@.len() ==> 0 < (#[trigger] chunks@[i])@.len() <= if size == 0 {
                1
            } else {
                size
            },
        forall|i: int|
            0 <= i < chunks@.len() - 1 ==> (#[trigger] chunks@[i])@.len() == if size == 0 {
                1
            } else {
                size
            },
        combinations@.len() == 0 <==> chunks@.len() == 0,
{
    let width = if size == 0 { 1 } else { size };
    let ghost all = combinations@;
    let mut chunks: Vec<Vec<P>> = Vec::new();
    let mut rest = combinations;
    assert(views(chunks@) =~= Seq::<Seq<P>>::empty());
    assert(chained(views(chunks@)) + rest@ =~= all);
    while rest.len() > width
        invariant
            width >= 1,
            chained(views(chunks@)) + rest@ == all,
            forall|i: int| 0 <= i < chunks@.len() ==> (#[trigger] chunks@[i])@.len() == width,
            chunks@.len() > 0 ==> rest@.len() > 0,
        decreases rest@.len(),
    {
        let mut chunk = rest.split_off(width);
        core::mem::swap(&mut chunk, &mut rest);
        let ghost before = chunks@;
        chunks.push(chunk);
        proof {
            assert(views(chunks@).drop_last() =~= views(before));
            assert(chained(views(chunks@)) + rest@ =~= all);
        }
    }
    if rest.len() > 0 {
        let ghost before = chunks@;
        let ghost last = rest@;
        chunks.push(rest);
        proof {
            assert(views(chunks@).drop_last() =~= views(before));
            assert(chained(views(chunks@)) =~= chained(views(before)) + last);
        }
    } else {
        assert(chained(views(chunks@)) + rest@ =~= chained(views(chunks@)));
    }
    chunks
}

/// The outcomes of chunks joined in chunk order: the results and the
/// failures of all of them, or the first error among them.
pub open spec fn joined<P>(parts: Seq<Result<Outcomes<P>, Error>>) -> Result<
    (Seq<(P, i128)>, Seq<Failure<P>>),
    Error,
>
    decreases parts.len(),
{
    if parts.len() == 0 {
        Ok((Seq::empty(), Seq::empty()))
    } else {
        match joined(parts.drop_last()) {
            Err(e) => Err(e),
            Ok(lists) => match parts.last() {
                Err(e) => Err(e),
                Ok(part) => Ok((lists.0 + part.results@, lists.1 + part.failures@)),
            },
        }
    }
}

/// The number of items of a chunk when `total` items are shared out among
/// `workers` workers: the quotient rounded up, and at least one. No workers
/// count as one.
pub open spec fn chunk_len(total: nat, workers: nat) -> nat {
    let workers = if workers == 0 { 1 } else { workers };
    let size = if total % workers == 0 { total / workers } else { total / workers + 1 };
    if size == 0 { 1 } else { size }
}

/// The number of items of a chunk when `total` items are shared out among
/// `workers` workers.
pub fn chunk_size(total: usize, workers: usize) -> (r: usize)
    ensures
        r == chunk_len(total as nat, workers as nat),
        r >= 1,
        workers >= 1 ==> r * workers >= total,
{
    let workers = if workers == 0 { 1 } else { workers };
    proof {
        lemma_chunks_suffice(total as nat, workers as nat);
    }
    let quotient = total / workers;
    let size = if total % workers == 0 { quotient } else { quotient + 1 };
    if size == 0 { 1 } else { size }
}

/// At most `workers` chunks of `chunk_len(total, workers)` items hold `total` items.
pub proof fn lemma_chunks_suffice(total: nat, workers: nat)
    requires
        workers >= 1,
    ensures
        chunk_len(total, workers) >= 1,
        chunk_len(total, workers) * workers >= total,
        total / workers <= total,
        total % workers != 0 ==> total / workers < total,
{
    let q = total / workers;
    let r = total % workers;
    assert(total == q * workers + r && 0 <= r < workers && q <= total && q * workers
        + workers == (q + 1) * workers && (r != 0 ==> q < total)) by (nonlinear_arith)
        requires
            q == total / workers,
            r == total % workers,
            workers >= 1,
    ;
    let size = chunk_len(total, workers);
    if r == 0 {
        assert(size * workers >= q * workers) by (nonlinear_arith)
            requires
                size >= q,
                workers >= 1,
        ;
    } else {
        assert(size == q + 1);
    }
}

/// Outcomes that hold every item of `whole` exactly once have as many
/// entries as `whole` has items, and the same items as often.
pub proof fn lemma_interleaves_complete<P>(left: Seq<P>, right: Seq<P>, whole: Seq<P>)
    requires
        interleaves(left, right, whole),
    ensures
        left.len() + right.len() == whole.len(),
        left.to_multiset().add(right.to_multiset()) =~= whole.to_multiset(),
    decreases whole.len(),
{
    broadcast use vstd::seq_lib::group_to_multiset_ensures;

    if whole.len() == 0 {
        assert(left =~= Seq::<P>::empty());
        assert(right =~= Seq::<P>::empty());
        assert(whole =~= Seq::<P>::empty());
    } else if left.len() > 0 && left.last() == whole.last() && interleaves(
        left.drop_last(),
        right,
        whole.drop_last(),
    ) {
        lemma_interleaves_complete(left.drop_last(), right, whole.drop_last());
        assert(left =~= left.drop_last().push(left.last()));
        assert(whole =~= whole.drop_last().push(whole.last()));
    } else {
        lemma_interleaves_complete(left, right.drop_last(), whole.drop_last());
        assert(right =~= right.drop_last().push(right.last()));
        assert(whole =~= whole.drop_last().push(whole.last()));
    }
}

/// Outcomes of two runs, joined, hold the combinations of both runs.
pub proof fn lemma_interleaves_concat<P>(
    left: Seq<P>,
    right: Seq<P>,
    whole: Seq<P>,
    more_left: Seq<P>,
    more_right: Seq<P>,
    more: Seq<P>,
)
    requires
        interleaves(left, right, whole),
        interleaves(more_left, more_right, more),
    ensures
        interleaves(left + more_left, right + more_right, whole + more),
    decreases more.len(),
{
    if more.len() == 0 {
        assert(left + more_left =~= left);
        assert(right + more_right =~= right);
        assert(whole + more =~= whole);
    } else if more_left.len() > 0 && more_left.last() == more.last() && interleaves(
        more_left.drop_last(),
        more_right,
        more.drop_last(),
    ) {
        lemma_interleaves_concat(
            left,
            right,
            whole,
            more_left.drop_last(),
            more_right,
            more.drop_last(),
        );
        assert((left + more_left).drop_last() =~= left + more_left.drop_last());
        assert((whole + more).drop_last() =~= whole + more.drop_last());
    } else {
        lemma_interleaves_concat(
            left,
            right,
            whole,
            more_left,
            more_right.drop_last(),
            more.drop_last(),
        );
        assert((right + more_right).drop_last() =~= right + more_right.drop_last());
        assert((whole + more).drop_last() =~= whole + more.drop_last());
    }
}

/// The mathematical content of an [`Optimizer`].
pub struct OptimizerView {
    /// The candle series that every backtest plays.
    pub candles: Seq<Candle>,
    /// The balance that every backtest starts with.
    pub initial_balance: int,
}

impl OptimizerView {
    /// The error that stops the optimizer before any backtest, if its candle
    /// series is empty or its initial balance is not positive.
    pub open spec fn misconfiguration(self) -> Option<Error> {
        if self.candles.len() == 0 {
            Some(Error::CandleDataEmpty)
        } else if self.initial_balance <= 0 {
            Some(Error::NegZeroBalance)
        } else {
            None
        }
    }
}

/// Optimizer for testing trading strategies with different parameter combinations.
pub struct Optimizer<PS: ParameterCombination> {
    data: Vec<Candle>,
    initial_balance: i128,
    _marker: PhantomData<PS>,
}

impl<PS: ParameterCombination> View for Optimizer<PS> {
    type V = OptimizerView;

    closed spec fn view(&self) -> OptimizerView {
        OptimizerView { candles: self.data@, initial_balance: self.initial_balance as int }
    }
}

/// The number of workers that the machine offers.
///
/// Calls `num_cpus::get`, the number of logical cores available to the
/// process. Nothing is claimed of the number.
#[verifier::external_body]
fn available_workers() -> (workers: usize) {
    num_cpus::get()
}

impl<PS: ParameterCombination> Optimizer<PS> {
    /// Creates a new `Optimizer` with the given data and initial balance.
    pub fn new(data: Vec<Candle>, initial_balance: i128) -> (r: Self)
        ensures
            r@ == (OptimizerView { candles: data@, initial_balance: initial_balance as int }),
    {
        Self { data, initial_balance, _marker: PhantomData }
    }

    /// Runs the backtests of one chunk on one engine, which is created here
    /// and reset after each combination.
    pub fn run_chunk<TR: Transformer<PS::T>>(&self, chunk: Vec<PS::T>, transformers: &TR) -> (r:
        Result<Outcomes<PS::T>, Error>)
        ensures
            match self@.misconfiguration() {
                Some(e) => r == Err::<Outcomes<PS::T>, Error>(e),
                None => r is Ok && r->Ok_0.covers(chunk@),
            },
    {
        let mut backtest = match Backtest::new(self.data.clone(), self.initial_balance) {
            Err(e) => {
                return Err(e);
            },
            Ok(backtest) => backtest,
        };
        let mut outcomes = Outcomes::new();
        let ghost combinations = chunk@;
        assert(combinations.take(0) =~= Seq::<PS::T>::empty());
        for combination in it: chunk
            invariant
                it.seq() == combinations,
                outcomes.covers(combinations.take(it.index() as int)),
                backtest@ == backtest@.reset(),
        {
            let ghost played = combinations.take(it.index() as int);
            let ghost results = outcomes.results@;
            let ghost failures = outcomes.failures@;
            proof {
                assert(combinations.take(it.index() + 1) =~= played.push(combination));
                assert(played.push(combination).drop_last() =~= played);
            }
            let (balance, outcome) = match transformers.transform(&combination) {
                Err(error) => report(&mut backtest, Err(error)),
                Ok(mut strategy) => play(&mut backtest, &mut strategy),
            };
            outcomes.record(combination, balance, outcome);
            proof {
                if outcome is Ok {
                    assert(succeeded(outcomes.results@) =~= succeeded(results).push(combination));
                    assert(succeeded(outcomes.results@).drop_last() =~= succeeded(results));
                } else {
                    assert(failed(outcomes.failures@) =~= failed(failures).push(combination));
                    assert(failed(outcomes.failures@).drop_last() =~= failed(failures));
                }
            }
        }
        proof {
            assert(combinations.take(combinations.len() as int) =~= combinations);
        }
        Ok(outcomes)
    }

    /// Runs one backtest for each of `combinations`, shared out in contiguous
    /// chunks among `workers` workers, and joins the outcomes of the chunks in
    /// chunk order. The chunks are cut by [`split_chunks`], each is played by
    /// [`Optimizer::run_chunk`], and their outcomes are joined by
    /// [`Outcomes::join`].
    pub fn run_all<TR: Transformer<PS::T>>(
        &self,
        combinations: Vec<PS::T>,
        workers: usize,
        transformers: &TR,
    ) -> (r: Result<Outcomes<PS::T>, Error>)
        ensures
            combinations@.len() == 0 ==> r is Ok && r->Ok_0.covers(combinations@),
            combinations@.len() > 0 ==> match self@.misconfiguration() {
                Some(e) => r == Err::<Outcomes<PS::T>, Error>(e),
                None => r is Ok && r->Ok_0.covers(combinations@),
            },
    {
        let size = chunk_size(combinations.len(), workers);
        let chunks = split_chunks(combinations, size);
        let ghost cut = views(chunks@);
        let mut parts: Vec<Result<Outcomes<PS::T>, Error>> = Vec::new();
        for chunk in it: chunks
            invariant
                views(it.seq()) == cut,
                parts@.len() == it.index(),
                forall|i: int|
                    0 <= i < parts@.len() ==> match self@.misconfiguration() {
                        Some(e) => (#[trigger] parts@[i]) == Err::<Outcomes<PS::T>, Error>(e),
                        None => parts@[i] is Ok && parts@[i]->Ok_0.covers(cut[i]),
                    },
        {
            assert(cut[it.index() as int] == chunk@);
            let part = self.run_chunk(chunk, transformers);
            parts.push(part);
        }
        proof {
            assert(parts@.len() == cut.len());
            assert(chained(cut) == combinations@);
            assert(combinations@.len() > 0 ==> parts@.len() > 0);
            match self@.misconfiguration() {
                Some(e) => {
                    if parts@.len() > 0 {
                        let first = parts@.take(1);
                        assert(first.drop_last() =~= Seq::<
                            Result<Outcomes<PS::T>, Error>,
                        >::empty());
                        assert(first.last() == parts@[0]);
                        assert(joined(first.drop_last()) is Ok);
                        assert(joined(first) == Err::<
                            (Seq<(PS::T, i128)>, Seq<Failure<PS::T>>),
                            Error,
                        >(e));
                        lemma_joined_error(parts@, 1);
                    }
                },
                None => {
                    lemma_join_covers(parts@, cut);
                },
            }
        }
        Outcomes::join(parts)
    }

    /// Optimizes a trading strategy by testing all parameter combinations,
    /// with one chunk for each worker that the machine offers.
    ///
    /// The outcomes hold every combination of the space exactly once,
    /// however many workers there are. An empty candle series or an initial
    /// balance that is not positive stops the optimizer as soon as there is a
    /// combination to run.
    pub fn with<TR: Transformer<PS::T>>(&self, transformers: &TR) -> (r: Result<
        Outcomes<PS::T>,
        Error,
    >)
        ensures
            PS::space().len() == 0 ==> r is Ok && r->Ok_0.covers(PS::space()),
            PS::space().len() > 0 ==> match self@.misconfiguration() {
                Some(e) => r == Err::<Outcomes<PS::T>, Error>(e),
                None => r is Ok && r->Ok_0.covers(PS::space()),
            },
    {
        let combinations = PS::generate();
        self.run_all(combinations, available_workers(), transformers)
    }
}

} // verus!
