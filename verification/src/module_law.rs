//! What loading and running a module do to the engine, proved against the model.
use vstd::prelude::*;

use crate::decoder_law::{
    decoder_inv, decoder_reads, explains, lemma_decoder_accepts, lemma_decoder_asks,
    lemma_decoder_begins, lemma_decoder_begins_to_read, lemma_decoder_failed,
    lemma_decoder_finished, lemma_decoder_has_read, lemma_decoder_keeps, lemma_decoder_reads_on,
};
use crate::encoder::{scripts_of, EncoderView};
use crate::encoder_law::{
    encoder_inv, lemma_encoder_accepts, lemma_encoder_asks, lemma_encoder_begins,
    lemma_encoder_failed, lemma_encoder_finished, lemma_encoder_keeps, tensors_alive,
};
use crate::error::{ConversionError, ExecutionError, ForwardError};
use crate::module::{LoadingView, TensorCallView, ValueCallStage, ValueCallView};
use crate::native::{decode, native_of, plain, Native};
use crate::protocol::ReplyView;
use crate::value::Value;
use crate::world::{
    keeps, lemma_keeps_alive, lemma_keeps_nothing, lemma_keeps_release, lemma_keeps_value, World,
};

verus! {

/// A load changes the engine by the module it gives, and not at all when it fails.
pub proof fn lemma_load(l: LoadingView, world: World, reply: ReplyView, next: World)
    requires
        l.request() is Some,
        world.step(l.request()->0, reply, next),
    ensures
        world.permits(l.request()->0),
        l.accepts(reply),
        l.after(reply) is Loaded || l.after(reply) is Failed,
        l.after(reply) is Failed ==> next == world,
        l.after(reply) is Loaded ==> !world.modules.contains(l.after(reply)->Loaded_0),
        l.after(reply) is Loaded ==> next == (World {
            modules: world.modules.insert(l.after(reply)->Loaded_0),
            ..world
        }),
{
}

/// A forward pass on tensors changes the engine by the tensor it gives, and
/// not at all when it fails: the tensors it was given are as they were.
pub proof fn lemma_forward_ts(c: TensorCallView, world: World, reply: ReplyView, next: World)
    requires
        c.request() is Some,
        world.step(c.request()->0, reply, next),
    ensures
        c.accepts(reply),
        c.after(reply) is Finished || c.after(reply) is Failed,
        c.after(reply) is Failed ==> next == world,
        c.after(reply) is Finished ==> !world.tensors.contains(c.after(reply)->Finished_0),
        c.after(reply) is Finished ==> next == (World {
            tensors: world.tensors.insert(c.after(reply)->Finished_0),
            ..world
        }),
{
}

/// The value handles that a forward pass on tagged values owns while the
/// pass is run and its arguments are released.
pub open spec fn call_owns(args: Seq<usize>, outcome: Result<usize, ExecutionError>) -> Seq<
    usize,
> {
    match outcome {
        Ok(h) => args.push(h),
        Err(_) => args,
    }
}

/// What holds between a forward pass on tagged values and the world while
/// the pass runs on an engine that began in `base`: the module is alive, and
/// the world is `base` and what the pass owns at its stage. At the end only
/// the tensors of the result are left of it, and after a failure nothing.
pub open spec fn call_inv(c: ValueCallView, world: World, base: World) -> bool {
    &&& c.wf()
    &&& base.modules.contains(c.module)
    &&& world.modules == base.modules
    &&& match c.stage {
        ValueCallStage::Encoding(e) => encoder_inv(e, world, base) && tensors_alive(
            e.script,
            world,
        ),
        ValueCallStage::Calling(args) => keeps(world, base, args, Seq::empty()),
        ValueCallStage::Releasing { args, outcome } => keeps(
            world,
            base,
            call_owns(args, outcome),
            Seq::empty(),
        ),
        ValueCallStage::Decoding(d) => decoder_inv(d, world, base),
        ValueCallStage::Finished(_) => world.values == base.values,
        ValueCallStage::Failed(_) => world == base,
    }
}

/// A world that keeps one value beside `base` is `base` without that value.
proof fn lemma_keeps_one(world: World, base: World, h: usize)
    requires
        keeps(world, base, seq![h], Seq::empty()),
    ensures
        base == (World { values: world.values.remove(h), ..world }),
        world.values.dom().contains(h),
{
    let owned = seq![h];
    assert(owned[0] == h);
    assert(owned.contains(h));
    let less = World { values: world.values.remove(h), ..world };
    assert forall|k: usize| less.values.dom().contains(k) == base.values.dom().contains(k) by {
        if owned.contains(k) {
            let i = choose|i: int| 0 <= i < owned.len() && owned[i] == k;
            assert(k == h);
        }
    }
    assert(less.values.dom() =~= base.values.dom());
    assert(less.values =~= base.values);
    assert forall|t: usize| less.tensors.contains(t) == base.tensors.contains(t) by {
        assert(!Seq::<usize>::empty().contains(t));
    }
    assert(less.tensors =~= base.tensors);
}

/// The invariant at the point where the arguments are to be released.
proof fn lemma_call_releasing(
    c: ValueCallView,
    world: World,
    base: World,
    args: Seq<usize>,
    outcome: Result<usize, ExecutionError>,
)
    requires
        c.wf(),
        base.modules.contains(c.module),
        world.modules == base.modules,
        keeps(world, base, call_owns(args, outcome), Seq::empty()),
    ensures
        call_inv(c.releasing(args, outcome), world, base),
{
    if args.len() == 0 {
        match outcome {
            Ok(h) => {
                assert(call_owns(args, outcome) =~= seq![h]);
                lemma_keeps_one(world, base, h);
                lemma_decoder_begins(h, world);
                crate::decoder::lemma_decoder_start(h);
            },
            Err(_) => {
                assert(args =~= Seq::<usize>::empty());
                lemma_keeps_nothing(world, base);
            },
        }
    }
}

/// A forward pass on tagged values begins within its invariant, in any world
/// in which its module and the tensors among its arguments are alive.
pub proof fn lemma_call_begins(module: usize, values: Seq<Value>, world: World)
    requires
        world.modules.contains(module),
        tensors_alive(scripts_of(values, values.len()), world),
    ensures
        call_inv(ValueCallView::start(module, values), world, world),
{
    let e = EncoderView::start(values);
    lemma_encoder_begins(values, world);
    if e.stage is Failed {
        lemma_encoder_failed(e, world, world);
    }
}

/// A forward pass on tagged values asks only for what the world permits.
pub proof fn lemma_call_asks(c: ValueCallView, world: World, base: World)
    requires
        call_inv(c, world, base),
        c.request() is Some,
    ensures
        world.permits(c.request()->0),
{
    match c.stage {
        ValueCallStage::Encoding(e) => {
            lemma_encoder_asks(e, world, base);
        },
        ValueCallStage::Calling(args) => {
            lemma_keeps_alive(world, base, args, Seq::empty());
        },
        ValueCallStage::Releasing { args, outcome } => {
            let owned = call_owns(args, outcome);
            lemma_keeps_alive(world, base, owned, Seq::empty());
            assert(owned[args.len() - 1] == args.last());
        },
        ValueCallStage::Decoding(d) => {
            lemma_decoder_asks(d, world, base);
        },
        _ => {},
    }
}

/// Whatever an engine that keeps its word answers, the pass accepts.
pub proof fn lemma_call_accepts(c: ValueCallView, world: World, reply: ReplyView, next: World)
    requires
        c.wf(),
        c.request() is Some,
        world.step(c.request()->0, reply, next),
    ensures
        c.accepts(reply),
{
    match c.stage {
        ValueCallStage::Encoding(e) => {
            lemma_encoder_accepts(e, world, reply, next);
        },
        ValueCallStage::Decoding(d) => {
            lemma_decoder_accepts(d, world, reply, next);
        },
        _ => {},
    }
}

/// Every reply of an engine that keeps its word leaves the pass within its
/// invariant.
pub proof fn lemma_call_keeps(
    c: ValueCallView,
    world: World,
    base: World,
    reply: ReplyView,
    next: World,
)
    requires
        call_inv(c, world, base),
        c.request() is Some,
        world.step(c.request()->0, reply, next),
    ensures
        call_inv(c.after(reply), next, base),
{
    lemma_call_accepts(c, world, reply, next);
    crate::module::lemma_value_call_step(c, reply);
    let none = Seq::<usize>::empty();
    match c.stage {
        ValueCallStage::Encoding(e) => {
            lemma_encoder_keeps(e, world, base, reply, next);
            let after = e.after(reply);
            assert(next.tensors == world.tensors) by {
                assert forall|t: usize| next.tensors.contains(t) == world.tensors.contains(t) by {
                    assert(!none.contains(t));
                }
                assert(next.tensors =~= world.tensors);
            }
            if after.stage is Failed {
                lemma_encoder_failed(after, next, base);
            }
        },
        ValueCallStage::Calling(args) => {
            if reply is Value {
                let h = reply->Value_0;
                lemma_keeps_value(world, base, args, none, h, next.values[h]);
                lemma_call_releasing(c, next, base, args, Ok(h));
            } else {
                lemma_call_releasing(c, next, base, args, Err(
                    ExecutionError { message: reply->Failed_0 },
                ));
            }
        },
        ValueCallStage::Releasing { args, outcome } => {
            let owned = call_owns(args, outcome);
            let top = args.len() - 1;
            assert(owned[top] == args.last());
            lemma_keeps_release(world, base, owned, none, top);
            assert(owned.remove(top) =~= call_owns(args.drop_last(), outcome));
            lemma_call_releasing(c, next, base, args.drop_last(), outcome);
        },
        ValueCallStage::Decoding(d) => {
            lemma_decoder_keeps(d, world, base, reply, next);
            let after = d.after(reply);
            if after.stage is Finished {
                lemma_decoder_finished(after, next, base);
            } else if after.stage is Failed {
                lemma_decoder_failed(after, next, base);
            }
        },
        _ => {},
    }
}

/// When the pass is over, no value that was made for it is left, whether it
/// gave a result or failed; after a failure the engine is as it was.
pub proof fn lemma_call_over(c: ValueCallView, world: World, base: World)
    requires
        call_inv(c, world, base),
        c.request() is None,
    ensures
        c.stage is Finished || c.stage is Failed,
        world.values == base.values,
        world.modules == base.modules,
        c.stage is Failed ==> world == base,
{
    match c.stage {
        ValueCallStage::Encoding(e) => {
            crate::encoder::lemma_encoder_owns(e);
        },
        ValueCallStage::Decoding(d) => {},
        _ => {},
    }
}

/// What holds, beside `call_inv`, of a forward pass whose engine gave a
/// result that stood for the plain value `target`: the pass reads that
/// value, and ends with what reading it gives.
pub open spec fn call_reads(c: ValueCallView, world: World, base: World, target: Native) -> bool {
    &&& call_inv(c, world, base)
    &&& match c.stage {
        ValueCallStage::Releasing { args, outcome } => outcome is Ok ==> world.values[outcome->Ok_0]
            == target,
        ValueCallStage::Decoding(d) => decoder_reads(d, world, base, target),
        ValueCallStage::Finished(v) => decode(target) == Ok::<Value, ConversionError>(v),
        ValueCallStage::Failed(ForwardError::Conversion(e)) => e == ConversionError::InvalidString
            || explains(e, target),
        _ => true,
    }
}

/// Every reply of an engine that keeps its word, and that gives a result
/// that stands for `target` when it gives one, leaves the pass within
/// `call_reads`.
pub proof fn lemma_call_reads_on(
    c: ValueCallView,
    world: World,
    base: World,
    target: Native,
    reply: ReplyView,
    next: World,
)
    requires
        call_reads(c, world, base, target),
        plain(target),
        c.request() is Some,
        world.step(c.request()->0, reply, next),
        c.stage is Calling && reply is Value ==> next.values[reply->Value_0] == target,
    ensures
        call_reads(c.after(reply), next, base, target),
{
    lemma_call_keeps(c, world, base, reply, next);
    lemma_call_accepts(c, world, reply, next);
    let none = Seq::<usize>::empty();
    let after = c.after(reply);
    match c.stage {
        ValueCallStage::Encoding(e) => {
            lemma_encoder_keeps(e, world, base, reply, next);
        },
        ValueCallStage::Calling(args) => {
            if reply is Value && args.len() == 0 {
                let h = reply->Value_0;
                lemma_keeps_value(world, base, args, none, h, next.values[h]);
                assert(args.push(h) =~= seq![h]);
                lemma_keeps_one(next, base, h);
                lemma_decoder_begins_to_read(h, next);
            }
        },
        ValueCallStage::Releasing { args, outcome } => {
            if outcome is Ok {
                let h = outcome->Ok_0;
                let owned = call_owns(args, outcome);
                let top = args.len() - 1;
                assert(owned[top] == args.last());
                assert(owned[top + 1] == h);
                assert(next.values[h] == target);
                if args.len() == 1 {
                    lemma_keeps_release(world, base, owned, none, top);
                    assert(owned.remove(top) =~= seq![h]);
                    lemma_keeps_one(next, base, h);
                    lemma_decoder_begins_to_read(h, next);
                }
            }
        },
        ValueCallStage::Decoding(d) => {
            lemma_decoder_reads_on(d, world, base, target, reply, next);
            let read = d.after(reply);
            if read.stage is Finished || read.stage is Failed {
                lemma_decoder_has_read(read, next, base, target);
            }
        },
        _ => {},
    }
}

/// What holds of a forward pass on `values` up to the pass itself: the
/// arguments are made by the script of `values`, and the pass is run on one
/// handle for each value, in order, with the value's native form behind it.
pub open spec fn call_passes(c: ValueCallView, world: World, values: Seq<Value>) -> bool {
    match c.stage {
        ValueCallStage::Encoding(e) => e.script == scripts_of(values, values.len()),
        ValueCallStage::Calling(args) => {
            &&& args.len() == values.len()
            &&& forall|i: int|
                0 <= i < values.len() ==> world.values[#[trigger] args[i]] == native_of(values[i])
        },
        _ => true,
    }
}

/// Every reply of an engine that keeps its word leaves the pass within
/// `call_passes`.
pub proof fn lemma_call_passes_on(
    c: ValueCallView,
    world: World,
    base: World,
    values: Seq<Value>,
    reply: ReplyView,
    next: World,
)
    requires
        call_inv(c, world, base),
        call_passes(c, world, values),
        c.request() is Some,
        world.step(c.request()->0, reply, next),
    ensures
        call_passes(c.after(reply), next, values),
{
    lemma_call_accepts(c, world, reply, next);
    match c.stage {
        ValueCallStage::Encoding(e) => {
            lemma_encoder_keeps(e, world, base, reply, next);
            if e.after(reply).stage is Finished {
                lemma_encoder_finished(e.after(reply), next, base, values);
            }
        },
        _ => {},
    }
}

/// A forward pass begins within `call_reads`, whatever its result will stand for.
pub proof fn lemma_call_begins_to_read(
    module: usize,
    values: Seq<Value>,
    world: World,
    target: Native,
)
    requires
        world.modules.contains(module),
        tensors_alive(scripts_of(values, values.len()), world),
    ensures
        call_reads(ValueCallView::start(module, values), world, world, target),
{
    lemma_call_begins(module, values, world);
}

/// A run of a forward pass on tagged values: the states it went through,
/// the world at each, and the reply that led from each to the next.
pub struct CallRun {
    pub states: Seq<ValueCallView>,
    pub worlds: Seq<World>,
    pub replies: Seq<ReplyView>,
}

impl CallRun {
    /// True when the call of state `i` was answered by an engine that keeps
    /// its word, and state `i + 1` is what the reply led to.
    pub open spec fn step(self, i: int) -> bool {
        &&& self.states[i].request() is Some
        &&& self.worlds[i].step(self.states[i].request()->0, self.replies[i], self.worlds[i + 1])
        &&& self.states[i + 1] == self.states[i].after(self.replies[i])
    }

    /// True when the run begins with the pass of `module` on `values`, in a
    /// world in which the module and the tensors among the values are
    /// alive, and every step of it is one.
    pub open spec fn of(self, module: usize, values: Seq<Value>) -> bool {
        &&& self.states.len() == self.replies.len() + 1
        &&& self.worlds.len() == self.replies.len() + 1
        &&& self.states[0] == ValueCallView::start(module, values)
        &&& self.worlds[0].modules.contains(module)
        &&& tensors_alive(scripts_of(values, values.len()), self.worlds[0])
        &&& forall|i: int| 0 <= i < self.replies.len() ==> #[trigger] self.step(i)
    }

    /// The state in which the run ends.
    pub open spec fn end(self) -> ValueCallView {
        self.states.last()
    }

    /// True when the result of the pass, where the engine gave one, stood
    /// for `target`.
    pub open spec fn gave(self, target: Native) -> bool {
        forall|i: int|
            0 <= i < self.replies.len() && (#[trigger] self.states[i]).stage is Calling
                && self.replies[i] is Value ==> self.worlds[i + 1].values[self.replies[i]->Value_0]
                == target
    }
}

/// At every point of a run the pass is within its invariant: the module
/// stays alive and as it was, and the pass itself is run on the native forms
/// of the values, in order.
pub proof fn lemma_call_run(run: CallRun, module: usize, values: Seq<Value>, k: int)
    requires
        run.of(module, values),
        0 <= k <= run.replies.len(),
    ensures
        call_inv(run.states[k], run.worlds[k], run.worlds[0]),
        call_passes(run.states[k], run.worlds[k], values),
        run.worlds[k].modules == run.worlds[0].modules,
        run.states[k].module == module,
        forall|target: Native| plain(target) && run.gave(target) ==> call_reads(
            run.states[k],
            run.worlds[k],
            run.worlds[0],
            target,
        ),
    decreases k,
{
    if k == 0 {
        lemma_call_begins(module, values, run.worlds[0]);
        let e = EncoderView::start(values);
        lemma_encoder_begins(values, run.worlds[0]);
        if e.stage is Finished {
            lemma_encoder_finished(e, run.worlds[0], run.worlds[0], values);
        }
        assert forall|target: Native| plain(target) && run.gave(target) implies call_reads(
            run.states[k],
            run.worlds[k],
            run.worlds[0],
            target,
        ) by {
            lemma_call_begins_to_read(module, values, run.worlds[0], target);
        }
    } else {
        lemma_call_run(run, module, values, k - 1);
        assert(run.step(k - 1));
        let c = run.states[k - 1];
        let w = run.worlds[k - 1];
        lemma_call_keeps(c, w, run.worlds[0], run.replies[k - 1], run.worlds[k]);
        lemma_call_passes_on(c, w, run.worlds[0], values, run.replies[k - 1], run.worlds[k]);
        assert forall|target: Native| plain(target) && run.gave(target) implies call_reads(
            run.states[k],
            run.worlds[k],
            run.worlds[0],
            target,
        ) by {
            lemma_call_reads_on(c, w, run.worlds[0], target, run.replies[k - 1], run.worlds[k]);
        }
    }
}

/// At every point of a run the pass asks only for what the world permits.
pub proof fn lemma_call_run_asks(run: CallRun, module: usize, values: Seq<Value>, k: int)
    requires
        run.of(module, values),
        0 <= k <= run.replies.len(),
        run.states[k].request() is Some,
    ensures
        run.worlds[k].permits(run.states[k].request()->0),
{
    lemma_call_run(run, module, values, k);
    lemma_call_asks(run.states[k], run.worlds[k], run.worlds[0]);
}

/// A forward pass on tagged values that has come to its end has released
/// every value that was made for it, whether it gave a result or failed;
/// after a failure the engine is as it was. Where the engine gave a result
/// that stood for a plain value, the pass gives what reading that value
/// gives.
pub proof fn lemma_forward_is(run: CallRun, module: usize, values: Seq<Value>, target: Native)
    requires
        run.of(module, values),
        run.end().request() is None,
    ensures
        run.end().stage is Finished || run.end().stage is Failed,
        run.worlds.last().values == run.worlds[0].values,
        run.worlds.last().modules == run.worlds[0].modules,
        run.end().stage is Failed ==> run.worlds.last() == run.worlds[0],
        plain(target) && run.gave(target) ==> (run.end().stage matches ValueCallStage::Finished(v)
            ==> decode(target) == Ok::<Value, ConversionError>(v)),
{
    lemma_call_run(run, module, values, run.replies.len() as int);
    lemma_call_over(run.end(), run.worlds.last(), run.worlds[0]);
}

} // verus!
