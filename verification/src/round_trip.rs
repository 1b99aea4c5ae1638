//! Runs of the conversions on an engine that keeps its word, and what holds
//! at their end.
use vstd::prelude::*;
use crate::decoder::{DecoderStage, DecoderView, Item};
use crate::decoder_law::{
    burden, decoder_fuel, decoder_inv, decoder_reads, lemma_decoder_accepts, lemma_decoder_asks,
    lemma_decoder_begins, lemma_decoder_begins_to_read, lemma_decoder_failed,
    lemma_decoder_finished, lemma_decoder_has_read, lemma_decoder_keeps, lemma_decoder_progress,
    lemma_decoder_reads_on, lemma_tensors_kept, lemma_tensors_of_result, tensors_in, tensors_kept,
    work,
};
use crate::encoder::{lemma_encoder_step, scripts_of, EncoderStage, EncoderView};
use crate::encoder_law::{
    encoder_inv, lemma_encoder_accepts, lemma_encoder_asks, lemma_encoder_begins,
    lemma_encoder_failed, lemma_encoder_finished, lemma_encoder_keeps, lemma_encoder_outcome,
    nul_free, tensors_alive,
};
use crate::error::ConversionError;
use crate::native::{decode, lemma_decode_native, lemma_sized, native_of, plain, tensor_free};
use crate::protocol::ReplyView;
use crate::value::{IValue, Value};
use crate::world::{keeps, World};

verus! {

/// A run of an encoder: the states it went through, the world at each, and
/// the reply that led from each to the next.
pub struct EncoderRun {
    pub states: Seq<EncoderView>,
    pub worlds: Seq<World>,
    pub replies: Seq<ReplyView>,
}

impl EncoderRun {
    /// True when the call of state `i` was answered by an engine that keeps
    /// its word, and state `i + 1` is what the reply led to.
    pub open spec fn step(self, i: int) -> bool {
        &&& self.states[i].request() is Some
        &&& self.worlds[i].step(self.states[i].request()->0, self.replies[i], self.worlds[i + 1])
        &&& self.states[i + 1] == self.states[i].after(self.replies[i])
    }

    /// True when the run begins with the conversion of `values` and every
    /// step of it is one.
    pub open spec fn of(self, values: Seq<Value>) -> bool {
        &&& self.states.len() == self.replies.len() + 1
        &&& self.worlds.len() == self.replies.len() + 1
        &&& self.states[0] == EncoderView::start(values)
        &&& forall|i: int| 0 <= i < self.replies.len() ==> #[trigger] self.step(i)
    }

    /// The state in which the run ends.
    pub open spec fn end(self) -> EncoderView {
        self.states.last()
    }
}

/// A run of a decoder: the states it went through, the world at each, and
/// the reply that led from each to the next.
pub struct DecoderRun {
    pub states: Seq<DecoderView>,
    pub worlds: Seq<World>,
    pub replies: Seq<ReplyView>,
}

impl DecoderRun {
    /// True when the call of state `i` was answered by an engine that keeps
    /// its word, and state `i + 1` is what the reply led to.
    pub open spec fn step(self, i: int) -> bool {
        &&& self.states[i].request() is Some
        &&& self.worlds[i].step(self.states[i].request()->0, self.replies[i], self.worlds[i + 1])
        &&& self.states[i + 1] == self.states[i].after(self.replies[i])
    }

    /// True when the run begins with the conversion of the value behind
    /// `handle`, which is alive, and every step of it is one.
    pub open spec fn of(self, handle: usize) -> bool {
        &&& self.states.len() == self.replies.len() + 1
        &&& self.worlds.len() == self.replies.len() + 1
        &&& self.states[0] == DecoderView::start(handle)
        &&& self.worlds[0].values.dom().contains(handle)
        &&& forall|i: int| 0 <= i < self.replies.len() ==> #[trigger] self.step(i)
    }

    /// The state in which the run ends.
    pub open spec fn end(self) -> DecoderView {
        self.states.last()
    }

    /// The world before the run, without the handle that the decoder was given.
    pub open spec fn base(self, handle: usize) -> World {
        World { values: self.worlds[0].values.remove(handle), ..self.worlds[0] }
    }
}

/// At every point of a run the encoder is within its invariant, and the run
/// up to it is no longer than the fuel that it has used.
pub proof fn lemma_encoder_run(run: EncoderRun, values: Seq<Value>, k: int)
    requires
        run.of(values),
        0 <= k <= run.replies.len(),
    ensures
        encoder_inv(run.states[k], run.worlds[k], run.worlds[0]),
        run.states[k].script == scripts_of(values, values.len()),
        k + run.states[k].fuel() <= run.states[0].fuel(),
    decreases k,
{
    if k == 0 {
        lemma_encoder_begins(values, run.worlds[0]);
    } else {
        lemma_encoder_run(run, values, k - 1);
        assert(run.step(k - 1));
        let e = run.states[k - 1];
        let w = run.worlds[k - 1];
        lemma_encoder_keeps(e, w, run.worlds[0], run.replies[k - 1], run.worlds[k]);
        lemma_encoder_accepts(e, w, run.replies[k - 1], run.worlds[k]);
        lemma_encoder_step(e, run.replies[k - 1]);
    }
}

/// At every point of a run the decoder is within its invariant, and where
/// the value it was given is plain, within `decoder_reads`. The run up to
/// the point is no longer than the fuel that it has used, and so no longer
/// than four calls for each value in the value that is read.
pub proof fn lemma_decoder_run(run: DecoderRun, handle: usize, k: int)
    requires
        run.of(handle),
        0 <= k <= run.replies.len(),
    ensures
        decoder_inv(run.states[k], run.worlds[k], run.base(handle)),
        tensors_kept(run.states[k]),
        0 <= decoder_fuel(run.states[k], run.worlds[k]),
        k + decoder_fuel(run.states[k], run.worlds[k]) <= work(run.worlds[0].values[handle]),
        plain(run.worlds[0].values[handle]) ==> decoder_reads(
            run.states[k],
            run.worlds[k],
            run.base(handle),
            run.worlds[0].values[handle],
        ),
        plain(run.worlds[0].values[handle]) ==> run.states[k].tensors.len() == 0,
    decreases k,
{
    let target = run.worlds[0].values[handle];
    if k == 0 {
        lemma_decoder_begins(handle, run.worlds[0]);
        if plain(target) {
            lemma_decoder_begins_to_read(handle, run.worlds[0]);
        }
        let todo = run.states[0].todo;
        assert(todo.last() == Item::Visit(handle));
        assert(todo.drop_last() =~= Seq::<Item>::empty());
        assert(burden(todo.drop_last(), run.worlds[0]) == 0);
    } else {
        lemma_decoder_run(run, handle, k - 1);
        assert(run.step(k - 1));
        let d = run.states[k - 1];
        let w = run.worlds[k - 1];
        let reply = run.replies[k - 1];
        lemma_decoder_keeps(d, w, run.base(handle), reply, run.worlds[k]);
        lemma_decoder_progress(d, w, run.base(handle), reply, run.worlds[k]);
        lemma_decoder_accepts(d, w, reply, run.worlds[k]);
        lemma_tensors_kept(d, reply);
        if plain(target) {
            lemma_decoder_reads_on(d, w, run.base(handle), target, reply, run.worlds[k]);
            lemma_decoder_accepts(d, w, reply, run.worlds[k]);
            assert(d.tensors =~= Seq::<usize>::empty());
            if d.stage is Tensor {
                assert(d.todo[d.todo.len() - 1] == d.todo.last());
            }
        }
    }
}

/// At every point of a run, an encoder whose tensors are alive asks only for
/// what the world permits: it names no handle that is not alive, and so
/// releases none twice.
pub proof fn lemma_encoder_run_asks(run: EncoderRun, values: Seq<Value>, k: int)
    requires
        run.of(values),
        tensors_alive(scripts_of(values, values.len()), run.worlds[0]),
        0 <= k <= run.replies.len(),
        run.states[k].request() is Some,
    ensures
        run.worlds[k].permits(run.states[k].request()->0),
{
    lemma_encoder_run(run, values, k);
    let w = run.worlds[k];
    assert(w.tensors =~= run.worlds[0].tensors) by {
        assert forall|t: usize| w.tensors.contains(t) == run.worlds[0].tensors.contains(t) by {
            assert(!Seq::<usize>::empty().contains(t));
        }
    }
    lemma_encoder_asks(run.states[k], w, run.worlds[0]);
}

/// At every point of a run a decoder asks only for what the world permits:
/// it names no handle that is not alive, and so releases none twice.
pub proof fn lemma_decoder_run_asks(run: DecoderRun, handle: usize, k: int)
    requires
        run.of(handle),
        0 <= k <= run.replies.len(),
        run.states[k].request() is Some,
    ensures
        run.worlds[k].permits(run.states[k].request()->0),
{
    lemma_decoder_run(run, handle, k);
    lemma_decoder_asks(run.states[k], run.worlds[k], run.base(handle));
}

/// A conversion to a native value that fails leaves the engine as it was:
/// whatever was made for the parts that came before the failure is released.
pub proof fn lemma_failed_conversion_leaves_nothing(run: EncoderRun, values: Seq<Value>)
    requires
        run.of(values),
        run.end().stage is Failed,
    ensures
        run.worlds.last() == run.worlds[0],
{
    lemma_encoder_run(run, values, run.replies.len() as int);
    lemma_encoder_failed(run.end(), run.worlds.last(), run.worlds[0]);
}

/// A conversion to a native value that finishes has made the native form of
/// each value, in order, and nothing else is left of it.
pub proof fn lemma_finished_conversion(run: EncoderRun, values: Seq<Value>)
    requires
        run.of(values),
        run.end().stage is Finished,
    ensures
        run.end().stack.len() == values.len(),
        keeps(run.worlds.last(), run.worlds[0], run.end().stack, Seq::empty()),
        forall|i: int|
            0 <= i < values.len() ==> run.worlds.last().values[#[trigger] run.end().stack[i]]
                == native_of(values[i]),
{
    lemma_encoder_run(run, values, run.replies.len() as int);
    lemma_encoder_finished(run.end(), run.worlds.last(), run.worlds[0], values);
}

/// A conversion to a native value finishes only where no text has a NUL
/// byte. It fails with the engine's own failure or, where a text has a NUL
/// byte, with that of the text, and with nothing else.
pub proof fn lemma_conversion_outcome(run: EncoderRun, values: Seq<Value>)
    requires
        run.of(values),
    ensures
        run.end().stage is Finished ==> forall|i: int|
            0 <= i < values.len() ==> nul_free(#[trigger] values[i]),
        run.end().stage matches EncoderStage::Failed(e) ==> e is Native || e
            == ConversionError::InvalidString,
        run.end().stage matches EncoderStage::Failed(e) ==> e is Native || exists|i: int|
            0 <= i < values.len() && !nul_free(#[trigger] values[i]),
{
    lemma_encoder_run(run, values, run.replies.len() as int);
    lemma_encoder_outcome(run.end(), run.worlds.last(), run.worlds[0], values);
}

/// A conversion from a native value releases its handle and every handle it
/// was given on the way, whether it finishes or fails. When it finishes, the
/// tensors that it took out are those of its result, each new and alive;
/// after a failure they are released too.
pub proof fn lemma_read_releases(run: DecoderRun, handle: usize)
    requires
        run.of(handle),
        run.end().stage is Finished || run.end().stage is Failed,
    ensures
        run.worlds.last().values == run.base(handle).values,
        run.worlds.last().modules == run.worlds[0].modules,
        run.end().stage is Failed ==> run.worlds.last() == run.base(handle),
        run.end().stage is Finished ==> keeps(
            run.worlds.last(),
            run.base(handle),
            Seq::empty(),
            tensors_in(run.end().values[0]),
        ),
{
    lemma_decoder_run(run, handle, run.replies.len() as int);
    if run.end().stage is Finished {
        lemma_decoder_finished(run.end(), run.worlds.last(), run.base(handle));
        lemma_tensors_of_result(run.end());
    } else {
        lemma_decoder_failed(run.end(), run.worlds.last(), run.base(handle));
    }
}

/// A conversion from a plain native value gives what [`decode`] says of it:
/// the value when it finishes, and when it fails the error of the value,
/// unless the engine itself failed.
pub proof fn lemma_read_decodes(run: DecoderRun, handle: usize)
    requires
        run.of(handle),
        plain(run.worlds[0].values[handle]),
        run.end().stage is Finished || run.end().stage is Failed,
    ensures
        run.end().stage is Finished ==> decode(run.worlds[0].values[handle]) == Ok::<
            Value,
            ConversionError,
        >(run.end().values[0]),
        run.end().stage matches DecoderStage::Failed(e) ==> e is Native || decode(
            run.worlds[0].values[handle],
        ) == Err::<Value, ConversionError>(e),
        run.worlds.last() == run.base(handle),
{
    let last = run.replies.len() as int;
    lemma_decoder_run(run, handle, last);
    lemma_decoder_has_read(
        run.end(),
        run.worlds.last(),
        run.base(handle),
        run.worlds[0].values[handle],
    );
    if run.end().stage is Finished {
        lemma_decoder_finished(run.end(), run.worlds.last(), run.base(handle));
        assert(run.end().tensors =~= Seq::<usize>::empty());
        crate::world::lemma_keeps_nothing(run.worlds.last(), run.base(handle));
    }
}

/// The round trip: a tagged value without tensors that was converted to a
/// native value, and that native value converted back, gives the value
/// again. The way back can fail only where the engine fails, and afterwards
/// the engine is as it was before the way out.
pub proof fn lemma_round_trip(v: IValue, out: EncoderRun, back: DecoderRun)
    requires
        tensor_free(v@),
        out.of(seq![v@]),
        out.end().stage is Finished,
        back.of(out.end().stack[0]),
        back.worlds[0] == out.worlds.last(),
        back.end().stage is Finished || back.end().stage is Failed,
    ensures
        back.end().stage is Finished ==> back.end().values[0] == v@,
        back.end().stage matches DecoderStage::Failed(e) ==> e is Native,
        back.worlds.last() == out.worlds[0],
{
    let values = seq![v@];
    let handle = out.end().stack[0];
    let w0 = out.worlds[0];
    let w1 = out.worlds.last();
    lemma_finished_conversion(out, values);
    lemma_sized(v);
    lemma_decode_native(v@);
    assert(w1.values[handle] == native_of(v@));
    lemma_read_decodes(back, handle);
    let stack = out.end().stack;
    assert(stack =~= seq![handle]);
    assert(back.base(handle).values =~= w0.values) by {
        assert forall|h: usize|
            back.base(handle).values.dom().contains(h) == w0.values.dom().contains(h) by {
            if stack.contains(h) {
                let i = choose|i: int| 0 <= i < stack.len() && stack[i] == h;
                assert(h == handle);
            }
            if h == handle {
                assert(stack[0] == h);
            }
        }
        assert(back.base(handle).values.dom() =~= w0.values.dom());
    }
    assert(w1.tensors =~= w0.tensors) by {
        assert forall|t: usize| w1.tensors.contains(t) == w0.tensors.contains(t) by {
            assert(!Seq::<usize>::empty().contains(t));
        }
    }
}

} // verus!
