//! What an encoder does to the engine, proved against the model.
use vstd::prelude::*;
use vstd::utf8::*;
use crate::encoder::{
    eval, lemma_encoder_owns, lemma_encoder_step, lemma_eval_prefix, lemma_scripts_build, script_of,
    scripts_of, EncoderStage, EncoderView, OpView,
};
use crate::error::ConversionError;
use crate::native::{native_of, Native};
use crate::protocol::ReplyView;
use crate::text::has_nul;
use crate::value::Value;
use crate::world::{
    keeps, lemma_c_text, lemma_keeps_alive, lemma_keeps_release, lemma_keeps_self,
    lemma_keeps_value, World,
};

verus! {

/// The value handles that an encoder owns: its stack and, while the children
/// of a tuple are released, the tuple.
pub open spec fn encoder_owns(e: EncoderView) -> Seq<usize> {
    match e.stage {
        EncoderStage::Release { made, left } => e.stack.push(made),
        _ => e.stack,
    }
}

/// True when each of the first handles of `stack` has the term at its place behind it.
pub open spec fn stands_for(world: World, stack: Seq<usize>, terms: Seq<Native>) -> bool {
    forall|i: int| 0 <= i < stack.len() ==> world.values[#[trigger] stack[i]] == terms[i]
}

/// True when `e` is the engine's own failure, or stands for the current op
/// of `s`, a text with a NUL byte.
pub open spec fn excuses(s: EncoderView, e: ConversionError) -> bool {
    ||| e is Native
    ||| e == ConversionError::InvalidString && s.pc < s.script.len() && !s.script[s.pc as int].callable()
}

/// What holds between an encoder and the world while the encoder runs on an
/// engine that began in `base`: the world is `base` and what the encoder
/// owns, and behind each handle of the stack stands what the script built.
/// Every op before the current one could be called, and a failure is the
/// engine's own or that of a text with a NUL byte at the current op.
pub open spec fn encoder_inv(e: EncoderView, world: World, base: World) -> bool {
    &&& e.wf()
    &&& keeps(world, base, encoder_owns(e), Seq::empty())
    &&& forall|k: int| 0 <= k < e.pc && k < e.script.len() ==> (#[trigger] e.script[k]).callable()
    &&& match e.stage {
        EncoderStage::Build | EncoderStage::Finished => stands_for(
            world,
            e.stack,
            eval(e.script, e.pc)->0,
        ),
        EncoderStage::Release { made, left } => {
            let terms = eval(e.script, e.pc)->0;
            let n = e.script[e.pc as int].arity();
            &&& stands_for(world, e.stack, terms)
            &&& world.values[made] == Native::Tuple(
                terms.subrange(terms.len() - n, terms.len() as int),
            )
        },
        EncoderStage::Unwind(error) | EncoderStage::Failed(error) => excuses(e, error),
    }
}

/// True of the tagged values in which no text has a NUL byte.
pub open spec fn nul_free(v: Value) -> bool
    decreases v,
{
    match v {
        Value::Text(chars) => !has_nul(encode_utf8(chars)),
        Value::Tuple(items) => forall|i: int| 0 <= i < items.len() ==> nul_free(#[trigger] items[i]),
        _ => true,
    }
}

/// True when every op of `script` can be called.
pub open spec fn all_callable(script: Seq<OpView>) -> bool {
    forall|k: int| 0 <= k < script.len() ==> (#[trigger] script[k]).callable()
}

/// Two scripts can be called throughout exactly when one after the other can.
pub proof fn lemma_callable_concat(a: Seq<OpView>, b: Seq<OpView>)
    ensures
        all_callable(a + b) <==> all_callable(a) && all_callable(b),
{
    let whole = a + b;
    if all_callable(whole) {
        assert forall|k: int| 0 <= k < a.len() implies (#[trigger] a[k]).callable() by {
            assert(whole[k] == a[k]);
        }
        assert forall|k: int| 0 <= k < b.len() implies (#[trigger] b[k]).callable() by {
            assert(whole[a.len() + k] == b[k]);
        }
    }
    if all_callable(a) && all_callable(b) {
        assert forall|k: int| 0 <= k < whole.len() implies (#[trigger] whole[k]).callable() by {
            if k < a.len() {
                assert(whole[k] == a[k]);
            } else {
                assert(whole[k] == b[k - a.len()]);
            }
        }
    }
}

/// The script of a value can be called throughout exactly when no text in
/// the value has a NUL byte.
pub proof fn lemma_callable_script(v: Value)
    ensures
        all_callable(script_of(v)) <==> nul_free(v),
    decreases v,
{
    let script = script_of(v);
    match v {
        Value::Tuple(items) => {
            let inner = scripts_of(items, items.len());
            let own = seq![OpView::Tuple(items.len())];
            lemma_callable_scripts(items, items.len());
            assert(script =~= inner + own);
            lemma_callable_concat(inner, own);
            assert(all_callable(own));
        },
        Value::Text(chars) => {
            assert(script[0] == OpView::Text(encode_utf8(chars)));
        },
        _ => {
            assert(script[0].callable());
        },
    }
}

/// The scripts of the first `n` values can be called throughout exactly when
/// no text in those values has a NUL byte.
pub proof fn lemma_callable_scripts(items: Seq<Value>, n: nat)
    requires
        n <= items.len(),
    ensures
        all_callable(scripts_of(items, n)) <==> forall|i: int|
            0 <= i < n ==> nul_free(#[trigger] items[i]),
    decreases items, n,
{
    if n > 0 {
        let before = scripts_of(items, (n - 1) as nat);
        let last = script_of(items[n - 1]);
        lemma_callable_scripts(items, (n - 1) as nat);
        lemma_callable_script(items[n - 1]);
        lemma_callable_concat(before, last);
        if forall|i: int| 0 <= i < n ==> nul_free(#[trigger] items[i]) {
            assert(nul_free(items[n - 1]));
        }
    }
}

/// True when every tensor that `script` names is alive in `world`.
pub open spec fn tensors_alive(script: Seq<OpView>, world: World) -> bool {
    forall|k: int|
        0 <= k < script.len() && (#[trigger] script[k]) is Tensor ==> world.tensors.contains(
            script[k]->Tensor_0,
        )
}

/// An encoder begins within its invariant, in whatever world.
pub proof fn lemma_encoder_begins(values: Seq<Value>, world: World)
    ensures
        encoder_inv(EncoderView::start(values), world, world),
{
    let e = EncoderView::start(values);
    lemma_scripts_build(values, values.len());
    lemma_keeps_self(world);
    assert(values.take(values.len() as int) =~= values);
}

/// An encoder asks only for what the world permits: it names no handle that
/// is not alive, and so releases none twice.
pub proof fn lemma_encoder_asks(e: EncoderView, world: World, base: World)
    requires
        encoder_inv(e, world, base),
        tensors_alive(e.script, world),
        e.request() is Some,
    ensures
        world.permits(e.request()->0),
{
    lemma_encoder_owns(e);
    lemma_keeps_alive(world, base, encoder_owns(e), Seq::empty());
    match e.stage {
        EncoderStage::Build => {
            let op = e.script[e.pc as int];
            if op is Tuple {
                let n = op.arity();
                let start = e.stack.len() - n;
                let items = e.stack.subrange(start, e.stack.len() as int);
                assert forall|i: int| 0 <= i < items.len() implies world.values.dom().contains(
                    #[trigger] items[i],
                ) by {
                    assert(items[i] == e.stack[start + i]);
                }
            }
        },
        EncoderStage::Release { made, left } => {
            assert(encoder_owns(e)[e.stack.len() - 1] == e.stack.last());
        },
        _ => {},
    }
}

/// Whatever an engine that keeps its word answers, the encoder accepts.
pub proof fn lemma_encoder_accepts(e: EncoderView, world: World, reply: ReplyView, next: World)
    requires
        e.wf(),
        e.request() is Some,
        world.step(e.request()->0, reply, next),
    ensures
        e.accepts(reply),
{
}

/// Every reply of an engine that keeps its word leaves the encoder within
/// its invariant.
pub proof fn lemma_encoder_keeps(
    e: EncoderView,
    world: World,
    base: World,
    reply: ReplyView,
    next: World,
)
    requires
        encoder_inv(e, world, base),
        e.request() is Some,
        world.step(e.request()->0, reply, next),
    ensures
        encoder_inv(e.after(reply), next, base),
{
    lemma_encoder_accepts(e, world, reply, next);
    lemma_encoder_step(e, reply);
    lemma_encoder_owns(e);
    let after = e.after(reply);
    let owned = encoder_owns(e);
    let none = Seq::<usize>::empty();
    match e.stage {
        EncoderStage::Build => {
            lemma_eval_prefix(e.script, e.pc + 1, e.script.len());
            let op = e.script[e.pc as int];
            let terms = eval(e.script, e.pc)->0;
            if reply is Value {
                let h = reply->Value_0;
                let n = next.values[h];
                lemma_keeps_value(world, base, e.stack, none, h, n);
                assert(next == World { values: world.values.insert(h, n), ..world });
                assert(stands_for(next, e.stack, terms)) by {
                    assert forall|i: int| 0 <= i < e.stack.len() implies next.values[#[trigger] e.stack[i]]
                        == terms[i] by {
                        assert(e.stack.contains(e.stack[i]));
                    }
                }
                if op is Tuple {
                    let k = op.arity();
                    let start = e.stack.len() - k;
                    let items = e.stack.subrange(start, e.stack.len() as int);
                    assert(world.contents(items) =~= terms.subrange(start, terms.len() as int)) by {
                        assert forall|i: int| 0 <= i < items.len() implies world.contents(items)[i]
                            == terms[start + i] by {
                            assert(items[i] == e.stack[start + i]);
                        }
                    }
                    if k == 0 {
                        assert(terms.subrange(0, terms.len() as int) =~= terms);
                    }
                } else if op is Text {
                    lemma_c_text(op->Text_0);
                }
                if op.arity() == 0 {
                    let pushed = e.stack.push(h);
                    let built = eval(e.script, e.pc + 1)->0;
                    assert(built =~= terms.push(n));
                    assert(stands_for(next, pushed, built));
                }
            }
        },
        EncoderStage::Release { made, left } => {
            lemma_eval_prefix(e.script, e.pc + 1, e.script.len());
            let terms = eval(e.script, e.pc)->0;
            let top = e.stack.len() - 1;
            assert(owned[top] == e.stack.last());
            lemma_keeps_release(world, base, owned, none, top);
            assert(owned.remove(top) =~= e.stack.drop_last().push(made));
            assert(made != e.stack.last()) by {
                assert(owned[top + 1] == made);
            }
            assert(stands_for(next, e.stack.drop_last(), terms)) by {
                assert forall|i: int| 0 <= i < top implies next.values[#[trigger] e.stack.drop_last()[i]]
                    == terms[i] by {
                    assert(owned[i] == e.stack[i]);
                    assert(e.stack.drop_last()[i] == e.stack[i]);
                }
            }
            if left == 1 {
                let n = e.script[e.pc as int].arity();
                let built = eval(e.script, e.pc + 1)->0;
                let pushed = e.stack.drop_last().push(made);
                assert(built =~= terms.subrange(0, terms.len() - n).push(next.values[made]));
                assert(stands_for(next, pushed, built));
            }
        },
        EncoderStage::Unwind(_) => {
            let top = e.stack.len() - 1;
            lemma_keeps_release(world, base, owned, none, top);
            assert(owned.remove(top) =~= e.stack.drop_last());
        },
        _ => {},
    }
}

/// When an encoder has finished, the world is `base` and one new value for
/// each tagged value, with the value's native form behind its handle.
pub proof fn lemma_encoder_finished(e: EncoderView, world: World, base: World, values: Seq<Value>)
    requires
        encoder_inv(e, world, base),
        e.script == scripts_of(values, values.len()),
        e.stage is Finished,
    ensures
        e.stack.len() == values.len(),
        keeps(world, base, e.stack, Seq::empty()),
        forall|i: int| 0 <= i < values.len() ==> world.values[#[trigger] e.stack[i]] == native_of(values[i]),
{
    lemma_scripts_build(values, values.len());
    assert(values.take(values.len() as int) =~= values);
}

/// When an encoder has failed, nothing that it made is left: the world is
/// `base` again.
pub proof fn lemma_encoder_failed(e: EncoderView, world: World, base: World)
    requires
        encoder_inv(e, world, base),
        e.stage is Failed,
    ensures
        world == base,
{
    assert(e.stack =~= Seq::<usize>::empty());
    crate::world::lemma_keeps_nothing(world, base);
}

/// An encoder finishes only where no text has a NUL byte, and where none has
/// one it fails only with the engine's own failure. A failure is either the
/// engine's own or that of a text with a NUL byte.
pub proof fn lemma_encoder_outcome(e: EncoderView, world: World, base: World, values: Seq<Value>)
    requires
        encoder_inv(e, world, base),
        e.script == scripts_of(values, values.len()),
    ensures
        e.stage is Finished ==> forall|i: int| 0 <= i < values.len() ==> nul_free(#[trigger] values[i]),
        e.stage matches EncoderStage::Failed(error) ==> error is Native || error
            == ConversionError::InvalidString,
        e.stage matches EncoderStage::Failed(error) ==> error is Native || exists|i: int|
            0 <= i < values.len() && !nul_free(#[trigger] values[i]),
{
    lemma_callable_scripts(values, values.len());
    if e.stage is Finished {
        assert(all_callable(e.script));
    }
}

} // verus!
