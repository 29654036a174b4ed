//! One cipher context: a stateful stream in one direction under one key.

use crate::engine::{
    crypter_consumed, crypter_finalize, crypter_setup, crypter_update, open_crypter, Direction,
    KEY_LEN, MAX_SPAN,
};
use crate::error::CipherError;
use crate::stream::{
    joined, lemma_cuts_do_not_matter, lemma_stream_split, stream_bytes, stream_pieces,
};
use openssl::error::ErrorStack;
use openssl::symm::{Cipher, Crypter};
use vstd::prelude::*;

verus! {

/// What a context is, seen from outside.
pub struct ContextView {
    /// The way it transforms its stream.
    pub direction: Direction,
    /// The sixteen bytes that serve as key and as initialisation vector.
    pub key: Seq<u8>,
    /// Every byte taken in so far, in order, while the stream is intact;
    /// `None` once a step has failed or the context was finalized, and from
    /// then on.
    pub consumed: Option<Seq<u8>>,
}

/// What one call of `process` did.
#[derive(Clone, Copy, PartialEq, Eq, Debug, Structural)]
pub enum Step {
    /// The spans were refused; nothing was read, written or advanced.
    Skipped,
    /// The engine took in the whole input and wrote as many bytes.
    Complete,
    /// The engine fell short and the context was finalized; `written` bytes
    /// came out in all, and the stream is intact no longer.
    Degraded { written: usize },
}

/// A live cipher context.
pub struct CipherContext {
    crypter: Crypter,
}

/// The number of bytes that a step of the engine stands for: a failed step
/// stands for none.
pub open spec fn count_of<E>(outcome: Result<usize, E>) -> usize {
    match outcome {
        Ok(n) => n,
        Err(_) => 0,
    }
}

/// The step that `process` reports once the engine has answered: complete
/// where the first step gave all `len` bytes; degraded otherwise, with what
/// the first step and the finalizing one, if there was one, gave together.
pub open spec fn step_of<E>(len: usize, first: Result<usize, E>, last: Option<Result<usize, E>>) -> Step {
    if count_of(first) < len {
        Step::Degraded {
            written: (count_of(first) + match last {
                Some(outcome) => count_of(outcome),
                None => 0,
            }) as usize,
        }
    } else {
        Step::Complete
    }
}

/// The number of bytes that a step of the engine produced: a failed step
/// counts as none.
pub fn produced<E>(outcome: &Result<usize, E>) -> (count: usize)
    ensures
        count == (match *outcome {
            Ok(n) => n,
            Err(_) => 0,
        }),
{
    match outcome {
        Ok(n) => *n,
        Err(_) => 0,
    }
}

/// Whether the first step left bytes of a span of `len` unwritten, so that the
/// context is to be finalized into the rest: it gave fewer than `len`, or failed.
pub fn fell_short<E>(first: &Result<usize, E>, len: usize) -> (short: bool)
    ensures
        short == (match *first {
            Ok(n) => n < len,
            Err(_) => 0 < len,
        }),
{
    produced(first) < len
}

/// The step to report for a span of `len` bytes, from what the engine gave
/// back: `first` from its one step over the span, `last` from finalizing,
/// `None` where the context was not finalized.
pub fn step_reported<E>(len: usize, first: &Result<usize, E>, last: &Option<Result<usize, E>>) -> (step: Step)
    requires
        count_of(*first) + (match *last {
            Some(outcome) => count_of(outcome),
            None => 0,
        }) <= usize::MAX,
    ensures
        step == step_of(len, *first, *last),
{
    if fell_short(first, len) {
        let more = match last {
            Some(outcome) => produced(outcome),
            None => 0,
        };
        Step::Degraded { written: produced(first) + more }
    } else {
        Step::Complete
    }
}

/// Whether `process` works on spans of these lengths: both of one length,
/// which is positive and no more than `MAX_SPAN`.
pub open spec fn spans_fit(source: int, dest: int) -> bool {
    0 < source && source == dest && dest <= MAX_SPAN
}

/// How one call of `process` relates a context and a destination before it to
/// the same two after it.
pub open spec fn step_taken(
    step: Step,
    before: ContextView,
    after: ContextView,
    source: Seq<u8>,
    dest_before: Seq<u8>,
    dest_after: Seq<u8>,
) -> bool {
    &&& after.direction == before.direction
    &&& after.key == before.key
    &&& dest_after.len() == dest_before.len()
    &&& step == Step::Skipped ==> dest_after == dest_before && after == before
    &&& step == Step::Complete ==> spans_fit(source.len() as int, dest_before.len() as int) && (
        before.consumed matches Some(taken) ==> {
            &&& after.consumed == Some(taken + source)
            &&& dest_after == stream_bytes(
                before.direction == Direction::Encrypt,
                before.key,
                before.key,
                taken,
                source,
            )
            &&& before.direction == Direction::Encrypt ==> stream_bytes(
                false,
                before.key,
                before.key,
                stream_bytes(true, before.key, before.key, Seq::<u8>::empty(), taken),
                dest_after,
            ) == source
        })
    &&& step matches Step::Degraded { written } ==> {
        &&& written <= source.len()
        &&& spans_fit(source.len() as int, dest_before.len() as int)
        &&& after.consumed is None
    }
    &&& before.consumed is None ==> after.consumed is None
}

/// Stream continuity across calls: where a message goes through an intact
/// context in one complete step, and through the same context in two, cut
/// anywhere, the bytes written are the same and the context ends the same.
pub proof fn lemma_two_steps_as_one(
    start: ContextView,
    middle: ContextView,
    end: ContextView,
    end_of_whole: ContextView,
    head: Seq<u8>,
    tail: Seq<u8>,
    head_dest: (Seq<u8>, Seq<u8>),
    tail_dest: (Seq<u8>, Seq<u8>),
    whole_dest: (Seq<u8>, Seq<u8>),
)
    requires
        start.consumed is Some,
        step_taken(Step::Complete, start, middle, head, head_dest.0, head_dest.1),
        step_taken(Step::Complete, middle, end, tail, tail_dest.0, tail_dest.1),
        step_taken(Step::Complete, start, end_of_whole, head + tail, whole_dest.0, whole_dest.1),
    ensures
        whole_dest.1 == head_dest.1 + tail_dest.1,
        end_of_whole == end,
{
    let taken = start.consumed.unwrap();
    lemma_stream_split(start.direction == Direction::Encrypt, start.key, start.key, taken, head, tail);
    assert(taken + (head + tail) =~= (taken + head) + tail);
}

/// Whether a context that starts fresh takes the pieces of a message in
/// complete steps, one for each piece in order: `blank[j]` is the destination
/// before the step for `pieces[j]`, `written[j]` the same destination after it.
pub open spec fn taken_in_steps(
    direction: Direction,
    key: Seq<u8>,
    pieces: Seq<Seq<u8>>,
    blank: Seq<Seq<u8>>,
    written: Seq<Seq<u8>>,
) -> bool {
    &&& blank.len() == pieces.len()
    &&& written.len() == pieces.len()
    &&& forall|j: int|
        0 <= j < pieces.len() ==> step_taken(
            Step::Complete,
            ContextView { direction, key, consumed: Some(joined(pieces.take(j))) },
            ContextView { direction, key, consumed: Some(joined(pieces.take(j)) + pieces[j]) },
            #[trigger] pieces[j],
            blank[j],
            written[j],
        )
}

/// A context that takes a message in complete steps has the shorter message
/// in fewer steps too.
proof fn lemma_fewer_steps(
    direction: Direction,
    key: Seq<u8>,
    pieces: Seq<Seq<u8>>,
    blank: Seq<Seq<u8>>,
    written: Seq<Seq<u8>>,
)
    requires
        taken_in_steps(direction, key, pieces, blank, written),
        pieces.len() > 0,
    ensures
        taken_in_steps(direction, key, pieces.drop_last(), blank.drop_last(), written.drop_last()),
        pieces.take(pieces.len() - 1) == pieces.drop_last(),
        step_taken(
            Step::Complete,
            ContextView { direction, key, consumed: Some(joined(pieces.drop_last())) },
            ContextView { direction, key, consumed: Some(joined(pieces.drop_last()) + pieces.last()) },
            pieces.last(),
            blank.last(),
            written.last(),
        ),
{
    let fewer = pieces.drop_last();
    assert forall|j: int| 0 <= j < fewer.len() implies step_taken(
        Step::Complete,
        ContextView { direction, key, consumed: Some(joined(fewer.take(j))) },
        ContextView { direction, key, consumed: Some(joined(fewer.take(j)) + fewer[j]) },
        #[trigger] fewer[j],
        blank.drop_last()[j],
        written.drop_last()[j],
    ) by {
        assert(fewer.take(j) =~= pieces.take(j));
        assert(fewer[j] == pieces[j]);
    }
    assert(pieces.take(pieces.len() - 1) =~= fewer);
    assert(pieces.last() == pieces[pieces.len() - 1]);
}

/// What a fresh context writes in complete steps, joined in order, is what
/// the stream gives for the pieces one after the other.
pub proof fn lemma_steps_give_the_stream(
    direction: Direction,
    key: Seq<u8>,
    pieces: Seq<Seq<u8>>,
    blank: Seq<Seq<u8>>,
    written: Seq<Seq<u8>>,
)
    requires
        taken_in_steps(direction, key, pieces, blank, written),
    ensures
        joined(written) == stream_pieces(
            direction == Direction::Encrypt,
            key,
            key,
            Seq::<u8>::empty(),
            pieces,
        ),
    decreases pieces.len(),
{
    if pieces.len() > 0 {
        lemma_fewer_steps(direction, key, pieces, blank, written);
        lemma_steps_give_the_stream(
            direction,
            key,
            pieces.drop_last(),
            blank.drop_last(),
            written.drop_last(),
        );
        assert(Seq::<u8>::empty() + joined(pieces.drop_last()) =~= joined(pieces.drop_last()));
    }
}

/// Stream continuity for any number of cuts: what a fresh context writes for
/// the pieces of a message, joined in order, is what a fresh context under the
/// same key and direction writes for the whole message in one complete step.
pub proof fn lemma_steps_as_one(
    direction: Direction,
    key: Seq<u8>,
    pieces: Seq<Seq<u8>>,
    blank: Seq<Seq<u8>>,
    written: Seq<Seq<u8>>,
    end_of_whole: ContextView,
    whole_dest: (Seq<u8>, Seq<u8>),
)
    requires
        taken_in_steps(direction, key, pieces, blank, written),
        step_taken(
            Step::Complete,
            ContextView { direction, key, consumed: Some(Seq::<u8>::empty()) },
            end_of_whole,
            joined(pieces),
            whole_dest.0,
            whole_dest.1,
        ),
    ensures
        joined(written) == whole_dest.1,
{
    lemma_steps_give_the_stream(direction, key, pieces, blank, written);
    lemma_cuts_do_not_matter(direction == Direction::Encrypt, key, key, Seq::<u8>::empty(), pieces);
}

/// What an encrypting context gave for a message taken in complete steps, a
/// decrypting stream under the same key turns back into the message.
proof fn lemma_steps_are_undone(key: Seq<u8>, pieces: Seq<Seq<u8>>, blank: Seq<Seq<u8>>, written: Seq<Seq<u8>>)
    requires
        taken_in_steps(Direction::Encrypt, key, pieces, blank, written),
    ensures
        stream_bytes(
            false,
            key,
            key,
            Seq::<u8>::empty(),
            stream_bytes(true, key, key, Seq::<u8>::empty(), joined(pieces)),
        ) == joined(pieces),
    decreases pieces.len(),
{
    let none = Seq::<u8>::empty();
    if pieces.len() == 0 {
        assert(stream_bytes(true, key, key, none, none) =~= none);
        assert(stream_bytes(false, key, key, none, none) =~= none);
    } else {
        lemma_fewer_steps(Direction::Encrypt, key, pieces, blank, written);
        lemma_steps_are_undone(key, pieces.drop_last(), blank.drop_last(), written.drop_last());
        let taken = joined(pieces.drop_last());
        let given = stream_bytes(true, key, key, none, taken);
        lemma_stream_split(true, key, key, none, taken, pieces.last());
        assert(none + taken =~= taken);
        lemma_stream_split(false, key, key, none, given, written.last());
        assert(none + given =~= given);
    }
}

/// The round trip: where a fresh encrypting context takes a message in
/// complete steps, and a fresh decrypting context under the same key takes
/// what was written, cut anew in any way, in complete steps of its own, what
/// the second writes is the message.
pub proof fn lemma_round_trip(
    key: Seq<u8>,
    sent: Seq<Seq<u8>>,
    sent_blank: Seq<Seq<u8>>,
    sent_written: Seq<Seq<u8>>,
    received: Seq<Seq<u8>>,
    received_blank: Seq<Seq<u8>>,
    received_written: Seq<Seq<u8>>,
)
    requires
        taken_in_steps(Direction::Encrypt, key, sent, sent_blank, sent_written),
        taken_in_steps(Direction::Decrypt, key, received, received_blank, received_written),
        joined(received) == joined(sent_written),
    ensures
        joined(received_written) == joined(sent),
        joined(sent_written).len() == joined(sent).len(),
{
    let none = Seq::<u8>::empty();
    lemma_steps_give_the_stream(Direction::Encrypt, key, sent, sent_blank, sent_written);
    lemma_steps_give_the_stream(Direction::Decrypt, key, received, received_blank, received_written);
    lemma_cuts_do_not_matter(true, key, key, none, sent);
    lemma_cuts_do_not_matter(false, key, key, none, received);
    lemma_steps_are_undone(key, sent, sent_blank, sent_written);
}

impl View for CipherContext {
    type V = ContextView;

    closed spec fn view(&self) -> ContextView {
        let setup = crypter_setup(self.crypter).unwrap();
        ContextView {
            direction: if setup.0 { Direction::Encrypt } else { Direction::Decrypt },
            key: setup.1,
            consumed: crypter_consumed(self.crypter),
        }
    }
}

impl CipherContext {
    #[verifier::type_invariant]
    spec fn well_formed(&self) -> bool {
        &&& crypter_setup(self.crypter) matches Some(setup)
        &&& setup.1.len() == KEY_LEN
        &&& setup.2 == setup.1
    }

    /// Takes over what the engine gave back: the crypter where it opened one,
    /// and a failure of initialisation where it did not.
    fn seal(outcome: Result<Crypter, ErrorStack>) -> (made: Result<CipherContext, CipherError>)
        requires
            outcome matches Ok(crypter) ==> (crypter_setup(crypter) matches Some(setup) && setup.1.len()
                == KEY_LEN && setup.2 == setup.1),
        ensures
            match outcome {
                Ok(crypter) => made matches Ok(context) && context.crypter == crypter,
                Err(_) => made == Err::<CipherContext, CipherError>(
                    CipherError::SecurityInitializationFailure,
                ),
            },
    {
        match outcome {
            Ok(crypter) => Ok(CipherContext { crypter }),
            Err(_) => Err(CipherError::SecurityInitializationFailure),
        }
    }

    /// Creates a context under `key`, which also serves as its initialisation
    /// vector. A key of any length but sixteen is refused before the engine is
    /// asked; with sixteen bytes the only failure left is the engine's own.
    pub fn new(key: &[u8], direction: Direction) -> (made: Result<CipherContext, CipherError>)
        ensures
            key@.len() != KEY_LEN ==> made == Err::<CipherContext, CipherError>(CipherError::InvalidArgument),
            key@.len() == KEY_LEN ==> match made {
                Ok(context) => context@ == (ContextView {
                    direction,
                    key: key@,
                    consumed: Some(Seq::<u8>::empty()),
                }),
                Err(error) => error == CipherError::SecurityInitializationFailure,
            },
    {
        if key.len() != KEY_LEN {
            return Err(CipherError::InvalidArgument);
        }
        let cipher = Cipher::aes_128_cfb8();
        let outcome = open_crypter(cipher, direction, key, key);
        CipherContext::seal(outcome)
    }

    /// Sends `source` through the stream and writes what comes out to `dest`.
    ///
    /// Spans that do not fit are refused in silence: nothing is written and the
    /// stream does not move. Otherwise the engine takes the input in one step;
    /// where that step gives fewer bytes than it took, or fails, the context is
    /// finalized into the rest of `dest`, and a failed step counts as no bytes.
    /// Failures show in the result only; none is raised.
    pub fn process(&mut self, source: &[u8], dest: &mut [u8]) -> (step: Step)
        ensures
            step == Step::Skipped <==> !spans_fit(source@.len() as int, old(dest)@.len() as int),
            step_taken(step, old(self)@, final(self)@, source@, old(dest)@, final(dest)@),
    {
        proof {
            use_type_invariant(&*self);
        }
        let len = source.len();
        if len == 0 || len != dest.len() || len > MAX_SPAN {
            return Step::Skipped;
        }
        let first = crypter_update(&mut self.crypter, source, dest);
        let last = if fell_short(&first, len) {
            Some(crypter_finalize(&mut self.crypter, dest, produced(&first)))
        } else {
            None
        };
        proof {
            if !(count_of(first) < len) && old(self)@.consumed is Some {
                assert(dest@.subrange(0, len as int) =~= dest@);
                assert(dest@ =~= stream_bytes(
                    old(self)@.direction == Direction::Encrypt,
                    old(self)@.key,
                    old(self)@.key,
                    old(self)@.consumed.unwrap(),
                    source@,
                ));
            }
        }
        step_reported(len, &first, &last)
    }
}

} // verus!
