//! What a decoder does to the engine, proved against the model.
use vstd::prelude::*;
use crate::decoder::{
    lemma_decoder_start, lemma_decoder_step, visits, DecoderStage, DecoderView, Item,
};
use crate::error::ConversionError;
use crate::native::{decode, decode_all, plain, Native};
use crate::protocol::ReplyView;
use crate::value::Value;
use crate::world::{
    keeps, lemma_extends_append, lemma_keeps_alive, lemma_keeps_nothing, lemma_keeps_release,
    lemma_keeps_release_tensor, lemma_keeps_tensor, World,
};

verus! {

/// The handles of the pieces of work in `todo`, in order.
pub open spec fn handles(todo: Seq<Item>) -> Seq<usize> {
    Seq::new(todo.len(), |i: int| todo[i].handle())
}

/// What holds between a decoder and the world while the decoder runs on an
/// engine that began in `base`, before the decoder was given its handle: the
/// world is `base`, the values that the decoder has still to release, and
/// the tensors that it has taken out.
pub open spec fn decoder_inv(d: DecoderView, world: World, base: World) -> bool {
    &&& d.wf()
    &&& keeps(world, base, handles(d.todo), d.tensors)
}

/// The handles of the work that a tuple's elements make are the elements'
/// handles, the last one first.
pub proof fn lemma_visits_handles(children: Seq<usize>)
    ensures
        visits(children).len() == children.len(),
        forall|i: int|
            0 <= i < children.len() ==> (#[trigger] visits(children)[i]) == Item::Visit(
                children[children.len() - 1 - i],
            ),
    decreases children.len(),
{
    if children.len() > 0 {
        lemma_visits_handles(children.drop_first());
    }
}

/// A decoder begins within its invariant in any world in which its handle is
/// alive; `base` is that world without the handle.
pub proof fn lemma_decoder_begins(handle: usize, world: World)
    requires
        world.values.dom().contains(handle),
    ensures
        decoder_inv(
            DecoderView::start(handle),
            world,
            World { values: world.values.remove(handle), ..world },
        ),
{
    let d = DecoderView::start(handle);
    let base = World { values: world.values.remove(handle), ..world };
    lemma_decoder_start(handle);
    let owned = handles(d.todo);
    assert(owned =~= seq![handle]);
    assert forall|h: usize| #[trigger]
        world.values.dom().contains(h) <==> base.values.dom().contains(h) || owned.contains(
            h,
        ) by {
        if h == handle {
            assert(owned[0] == handle);
        }
    }
}

/// A decoder asks only for what the world permits: it names no handle that
/// is not alive, and so releases none twice.
pub proof fn lemma_decoder_asks(d: DecoderView, world: World, base: World)
    requires
        decoder_inv(d, world, base),
        d.request() is Some,
    ensures
        world.permits(d.request()->0),
{
    lemma_keeps_alive(world, base, handles(d.todo), d.tensors);
    if d.todo.len() > 0 {
        assert(handles(d.todo)[d.todo.len() - 1] == d.todo.last().handle());
    }
}

/// Whatever an engine that keeps its word answers, the decoder accepts.
pub proof fn lemma_decoder_accepts(d: DecoderView, world: World, reply: ReplyView, next: World)
    requires
        d.wf(),
        d.request() is Some,
        world.step(d.request()->0, reply, next),
    ensures
        d.accepts(reply),
{
}

/// Every reply of an engine that keeps its word leaves the decoder within
/// its invariant.
pub proof fn lemma_decoder_keeps(
    d: DecoderView,
    world: World,
    base: World,
    reply: ReplyView,
    next: World,
)
    requires
        decoder_inv(d, world, base),
        d.request() is Some,
        world.step(d.request()->0, reply, next),
    ensures
        decoder_inv(d.after(reply), next, base),
{
    lemma_decoder_accepts(d, world, reply, next);
    lemma_decoder_step(d, reply);
    let after = d.after(reply);
    let owned = handles(d.todo);
    let top = d.todo.len() - 1;
    if d.stage is Free || d.stage is Unwind {
        lemma_keeps_release(world, base, owned, d.tensors, top);
        assert(owned.remove(top) =~= handles(d.todo.drop_last()));
        assert(owned[top] == d.todo.last().handle());
    } else if d.stage is Drop {
        lemma_keeps_release_tensor(world, base, owned, d.tensors);
    } else if reply is Failed {
    } else if d.stage is Tensor {
        lemma_keeps_tensor(world, base, owned, d.tensors, reply->Tensor_0);
    } else if d.stage is Elements {
        let children = reply->Values_0;
        let h = d.todo.last().handle();
        let closed = d.todo.drop_last().push(Item::Close(h, children.len() as usize));
        lemma_visits_handles(children);
        assert(handles(closed) =~= owned);
        assert(handles(closed + visits(children)) =~= owned + handles(visits(children)));
        lemma_extends_append(
            world.values.dom(),
            base.values.dom(),
            owned,
            next.values.dom(),
            children,
            handles(visits(children)),
        );
        assert forall|k: usize| #[trigger] base.values.dom().contains(k) implies next.values[k]
            == base.values[k] by {
            assert(world.values.dom().contains(k));
        }
        assert(after.todo == closed + visits(children));
        assert(after.tensors == d.tensors);
        assert(next.tensors == world.tensors);
    }
}

/// When a decoder has finished, every value that it was given or has taken
/// out is released: the world is `base` and the tensors of the result.
pub proof fn lemma_decoder_finished(d: DecoderView, world: World, base: World)
    requires
        decoder_inv(d, world, base),
        d.stage is Finished,
    ensures
        keeps(world, base, Seq::empty(), d.tensors),
        world.values == base.values,
{
    assert(handles(d.todo) =~= Seq::<usize>::empty());
    assert forall|h: usize| world.values.dom().contains(h) == base.values.dom().contains(h) by {
        assert(!Seq::<usize>::empty().contains(h));
    }
    assert(world.values.dom() =~= base.values.dom());
    assert(world.values =~= base.values);
}

/// When a decoder has failed, nothing that it was given or has taken out is
/// left: the world is `base`.
pub proof fn lemma_decoder_failed(d: DecoderView, world: World, base: World)
    requires
        decoder_inv(d, world, base),
        d.stage is Failed,
    ensures
        world == base,
{
    assert(handles(d.todo) =~= Seq::<usize>::empty());
    assert(d.tensors =~= Seq::<usize>::empty());
    lemma_keeps_nothing(world, base);
}

/// What the work in `todo` leaves when it is done from the top in `world`,
/// with `values` there before it: the values that are in no tuple, or the
/// first error.
pub open spec fn finishes(todo: Seq<Item>, values: Seq<Value>, world: World) -> Result<
    Seq<Value>,
    ConversionError,
>
    decreases todo.len(),
{
    if todo.len() == 0 {
        Ok(values)
    } else {
        match todo.last() {
            Item::Visit(h) => match decode(world.values[h]) {
                Ok(v) => finishes(todo.drop_last(), values.push(v), world),
                Err(e) => Err(e),
            },
            Item::Close(_, n) => if n <= values.len() {
                finishes(
                    todo.drop_last(),
                    values.subrange(0, values.len() - n).push(
                        Value::Tuple(values.subrange(values.len() - n, values.len() as int)),
                    ),
                    world,
                )
            } else {
                Ok(values)
            },
        }
    }
}

/// What a decoder of `target` is to end with.
pub open spec fn goal(target: Native) -> Result<Seq<Value>, ConversionError> {
    match decode(target) {
        Ok(v) => Ok(seq![v]),
        Err(e) => Err(e),
    }
}

/// True when the value `n` is of the kind that is read at `stage`.
pub open spec fn fits(stage: DecoderStage, n: Native) -> bool {
    match stage {
        DecoderStage::Tensor => n is Tensor,
        DecoderStage::Double => n is Double,
        DecoderStage::Int => n is Int,
        DecoderStage::Bool => n is Bool,
        DecoderStage::Length => n is Tuple,
        DecoderStage::Elements(k) => n is Tuple && n->Tuple_0.len() == k,
        DecoderStage::Text => n is Text,
        _ => true,
    }
}

/// True when `e` is the engine's own failure or the error that reading `target` gives.
pub open spec fn explains(e: ConversionError, target: Native) -> bool {
    e is Native || decode(target) == Err::<Value, ConversionError>(e)
}

/// What holds between a decoder and the world while the decoder reads a
/// value that stood for `target` when it began: what it has read and what it
/// has still to read make up what reading `target` gives.
pub open spec fn decoder_reads(d: DecoderView, world: World, base: World, target: Native) -> bool {
    &&& decoder_inv(d, world, base)
    &&& forall|i: int|
        0 <= i < d.todo.len() && (#[trigger] d.todo[i]) is Visit ==> plain(
            world.values[d.todo[i].handle()],
        )
    &&& match d.stage {
        DecoderStage::Free => if d.todo.last() is Visit {
            finishes(d.todo.drop_last(), d.values, world) == goal(target)
        } else {
            finishes(d.todo, d.values, world) == goal(target)
        },
        DecoderStage::Unwind(e) | DecoderStage::Drop(e) | DecoderStage::Failed(e) => explains(
            e,
            target,
        ),
        DecoderStage::Finished => Ok::<Seq<Value>, ConversionError>(d.values) == goal(target),
        _ => {
            &&& fits(d.stage, world.values[d.todo.last().handle()])
            &&& finishes(d.todo, d.values, world) == goal(target)
        },
    }
}

/// What the work leaves depends on the world only through the handles of the work.
pub proof fn lemma_finishes_frame(todo: Seq<Item>, values: Seq<Value>, a: World, b: World)
    requires
        forall|i: int|
            0 <= i < todo.len() ==> a.values[(#[trigger] todo[i]).handle()]
                == b.values[todo[i].handle()],
    ensures
        finishes(todo, values, a) == finishes(todo, values, b),
    decreases todo.len(),
{
    if todo.len() > 0 {
        let rest = todo.drop_last();
        assert(todo[todo.len() - 1] == todo.last());
        assert forall|i: int| 0 <= i < rest.len() implies a.values[(#[trigger] rest[i]).handle()]
            == b.values[rest[i].handle()] by {
            assert(rest[i] == todo[i]);
        }
        match todo.last() {
            Item::Visit(h) => {
                if decode(a.values[h]) is Ok {
                    lemma_finishes_frame(rest, values.push(decode(a.values[h])->Ok_0), a, b);
                }
            },
            Item::Close(_, n) => {
                if n <= values.len() {
                    lemma_finishes_frame(
                        rest,
                        values.subrange(0, values.len() - n).push(
                            Value::Tuple(values.subrange(values.len() - n, values.len() as int)),
                        ),
                        a,
                        b,
                    );
                }
            },
        }
    }
}

/// An error among the first items of a tuple is the error of the tuple.
pub proof fn lemma_decode_all_error(items: Seq<Native>, k: nat, n: nat)
    requires
        k <= n <= items.len(),
        decode_all(items, k) is Err,
    ensures
        decode_all(items, n) == decode_all(items, k),
    decreases n - k,
{
    if k < n {
        lemma_decode_all_error(items, k, (n - 1) as nat);
    }
}

/// The work that the elements of a tuple make leaves what the tuple's own
/// work would have left.
pub proof fn lemma_finishes_children(
    closed: Seq<Item>,
    children: Seq<usize>,
    items: Seq<Native>,
    k: nat,
    values: Seq<Value>,
    so_far: Seq<Value>,
    world: World,
)
    requires
        k <= children.len(),
        children.len() == items.len(),
        decode_all(items, k) == Ok::<Seq<Value>, ConversionError>(so_far),
        forall|i: int| 0 <= i < children.len() ==> world.values[#[trigger] children[i]] == items[i],
    ensures
        finishes(
            closed + visits(children.subrange(k as int, children.len() as int)),
            values + so_far,
            world,
        ) == match decode_all(items, items.len()) {
            Ok(all) => finishes(closed, values + all, world),
            Err(e) => Err(e),
        },
    decreases children.len() - k,
{
    let n = children.len();
    let left = children.subrange(k as int, n as int);
    let todo = closed + visits(left);
    if k == n {
        assert(todo =~= closed);
    } else {
        lemma_visits_handles(left);
        let rest = left.drop_first();
        assert(rest =~= children.subrange(k as int + 1, n as int));
        assert(todo.last() == Item::Visit(children[k as int]));
        assert(todo.drop_last() =~= closed + visits(rest));
        assert(left[0] == children[k as int]);
        match decode(items[k as int]) {
            Ok(v) => {
                assert(decode_all(items, k + 1) == Ok::<Seq<Value>, ConversionError>(
                    so_far.push(v),
                ));
                assert((values + so_far).push(v) =~= values + so_far.push(v));
                lemma_finishes_children(
                    closed,
                    children,
                    items,
                    k + 1,
                    values,
                    so_far.push(v),
                    world,
                );
            },
            Err(e) => {
                assert(decode_all(items, k + 1) == Err::<Seq<Value>, ConversionError>(e));
                lemma_decode_all_error(items, k + 1, n);
            },
        }
    }
}

/// A decoder begins to read within `decoder_reads`, in any world in which a
/// plain value stands behind its handle.
pub proof fn lemma_decoder_begins_to_read(handle: usize, world: World)
    requires
        world.values.dom().contains(handle),
        plain(world.values[handle]),
    ensures
        decoder_reads(
            DecoderView::start(handle),
            world,
            World { values: world.values.remove(handle), ..world },
            world.values[handle],
        ),
{
    lemma_decoder_begins(handle, world);
    let d = DecoderView::start(handle);
    let target = world.values[handle];
    assert(d.todo.last() == Item::Visit(handle));
    assert(d.todo.drop_last() =~= Seq::<Item>::empty());
    if decode(target) is Ok {
        let v = decode(target)->Ok_0;
        assert(d.values.push(v) =~= seq![v]);
        assert(finishes(d.todo.drop_last(), d.values.push(v), world) == Ok::<
            Seq<Value>,
            ConversionError,
        >(seq![v]));
    }
}

/// Every reply of an engine that keeps its word leaves the decoder within
/// `decoder_reads`.
pub proof fn lemma_decoder_reads_on(
    d: DecoderView,
    world: World,
    base: World,
    target: Native,
    reply: ReplyView,
    next: World,
)
    requires
        decoder_reads(d, world, base, target),
        d.request() is Some,
        world.step(d.request()->0, reply, next),
    ensures
        decoder_reads(d.after(reply), next, base, target),
{
    lemma_decoder_keeps(d, world, base, reply, next);
    lemma_decoder_accepts(d, world, reply, next);
    lemma_keeps_alive(world, base, handles(d.todo), d.tensors);
    let after = d.after(reply);
    let owned = handles(d.todo);
    if !(d.stage is Drop || d.stage is Failed || d.stage is Finished) {
        let top = d.todo.len() - 1;
        let h = d.todo.last().handle();
        let rest = d.todo.drop_last();
        assert(d.todo[top] == d.todo.last());
        assert(owned[top] == h);
        assert forall|i: int| 0 <= i < rest.len() implies (#[trigger] rest[i]).handle() != h
            && world.values.dom().contains(rest[i].handle()) by {
            assert(owned[i] == rest[i].handle());
            assert(rest[i] == d.todo[i]);
        }
        if d.stage is Free || d.stage is Unwind {
            assert forall|i: int| 0 <= i < rest.len() implies world.values[(#[trigger] rest[i]).handle()]
                == next.values[rest[i].handle()] by {}
            assert forall|i: int| 0 <= i < rest.len() && (#[trigger] rest[i]) is Visit implies plain(
                next.values[rest[i].handle()],
            ) by {
                assert(rest[i] == d.todo[i]);
            }
            if d.stage is Free {
                let values = if d.todo.last() is Visit {
                    d.values
                } else {
                    after.values
                };
                lemma_finishes_frame(rest, values, world, next);
                if rest.len() > 0 {
                    assert(rest[rest.len() - 1] == rest.last());
                }
            }
        } else if reply is Failed {
        } else if d.stage is Elements {
            let children = reply->Values_0;
            let items = world.values[h]->Tuple_0;
            let n = children.len();
            let closed = rest.push(Item::Close(h, n as usize));
            lemma_visits_handles(children);
            assert(children.subrange(0, n as int) =~= children);
            assert(d.values + Seq::<Value>::empty() =~= d.values);
            lemma_finishes_children(closed, children, items, 0, d.values, Seq::empty(), next);
            assert(closed.last() == Item::Close(h, n as usize));
            assert(closed.drop_last() =~= rest);
            lemma_finishes_frame(rest, d.values, world, next);
            if decode_all(items, items.len()) is Ok {
                let all = decode_all(items, items.len())->Ok_0;
                lemma_decode_all_len(items, items.len());
                let whole = d.values + all;
                assert(whole.subrange(0, whole.len() - n) =~= d.values);
                assert(whole.subrange(whole.len() - n, whole.len() as int) =~= all);
                lemma_finishes_frame(rest, d.values.push(Value::Tuple(all)), world, next);
            }
            assert(d.todo =~= rest.push(d.todo.last()));
            assert forall|i: int|
                0 <= i < after.todo.len() && (#[trigger] after.todo[i]) is Visit implies plain(
                next.values[after.todo[i].handle()],
            ) by {
                if i < rest.len() {
                    assert(after.todo[i] == d.todo[i]);
                } else if i > rest.len() {
                    let j = n - 1 - (i - closed.len());
                    assert(after.todo[i] == visits(children)[i - closed.len()]);
                    assert(after.todo[i].handle() == children[j]);
                    assert(next.values[children[j]] == items[j]);
                }
            }
            if n > 0 {
                assert(after.todo.last() == visits(children)[n - 1]);
            } else {
                assert(after.todo =~= closed);
            }
        } else {
            assert(next.values == world.values);
            assert(d.todo =~= rest.push(d.todo.last()));
        }
    }
}

/// Reading the first `n` items of a tuple gives `n` values.
pub proof fn lemma_decode_all_len(items: Seq<Native>, n: nat)
    requires
        n <= items.len(),
        decode_all(items, n) is Ok,
    ensures
        decode_all(items, n)->Ok_0.len() == n,
    decreases n,
{
    if n > 0 {
        lemma_decode_all_len(items, (n - 1) as nat);
    }
}

/// When a decoder that read `target` has finished, it holds the one value
/// that reading `target` gives.
pub proof fn lemma_decoder_has_read(d: DecoderView, world: World, base: World, target: Native)
    requires
        decoder_reads(d, world, base, target),
        d.stage is Finished || d.stage is Failed,
    ensures
        d.stage is Finished ==> decode(target) == Ok::<Value, ConversionError>(d.values[0]),
        d.stage matches DecoderStage::Failed(e) ==> explains(e, target),
        world.values == base.values,
        d.stage is Failed ==> world == base,
{
    if d.stage is Finished {
        lemma_decoder_finished(d, world, base);
        assert(seq![decode(target)->Ok_0][0] == d.values[0]);
    } else {
        lemma_decoder_failed(d, world, base);
    }
}

/// The number of calls that reading `n` can take: four for the value
/// itself, and what its elements take.
pub open spec fn work(n: Native) -> nat
    decreases n,
{
    match n {
        Native::Tuple(items) => 4 + works(items, items.len()),
        _ => 4,
    }
}

/// The number of calls that reading the first `k` of `items` can take.
pub open spec fn works(items: Seq<Native>, k: nat) -> nat
    decreases items, k,
{
    if k == 0 || k > items.len() {
        0
    } else {
        works(items, (k - 1) as nat) + work(items[k - 1])
    }
}

/// The number of calls that the work in `todo` can take in `world`.
pub open spec fn burden(todo: Seq<Item>, world: World) -> nat
    decreases todo.len(),
{
    if todo.len() == 0 {
        0
    } else {
        burden(todo.drop_last(), world) + match todo.last() {
            Item::Visit(h) => work(world.values[h]),
            Item::Close(_, _) => 1,
        }
    }
}

/// The number of replies after which a decoder in state `d` is surely done
/// in `world`, on an engine that keeps its word.
pub open spec fn decoder_fuel(d: DecoderView, world: World) -> int {
    let all = burden(d.todo, world) as int;
    let rest = burden(d.todo.drop_last(), world) as int;
    let tensors = d.tensors.len() as int;
    match d.stage {
        DecoderStage::Tag => all + tensors,
        DecoderStage::Elements(_) => all + tensors - 2,
        DecoderStage::Free => if d.todo.last() is Visit {
            rest + tensors + 1
        } else {
            all + tensors
        },
        DecoderStage::Unwind(_) => d.todo.len() + tensors,
        DecoderStage::Drop(_) => tensors,
        DecoderStage::Finished | DecoderStage::Failed(_) => 0,
        _ => all + tensors - 1,
    }
}

/// Every piece of work takes a call.
pub proof fn lemma_burden_floor(todo: Seq<Item>, world: World)
    ensures
        burden(todo, world) >= todo.len(),
        todo.len() > 0 && todo.last() is Visit ==> burden(todo, world) >= todo.len() + 3,
    decreases todo.len(),
{
    if todo.len() > 0 {
        lemma_burden_floor(todo.drop_last(), world);
    }
}

/// What the work can take depends on the world only through the handles of the work.
pub proof fn lemma_burden_frame(todo: Seq<Item>, a: World, b: World)
    requires
        forall|i: int|
            0 <= i < todo.len() ==> a.values[(#[trigger] todo[i]).handle()]
                == b.values[todo[i].handle()],
    ensures
        burden(todo, a) == burden(todo, b),
    decreases todo.len(),
{
    if todo.len() > 0 {
        let rest = todo.drop_last();
        assert(todo[todo.len() - 1] == todo.last());
        assert forall|i: int| 0 <= i < rest.len() implies a.values[(#[trigger] rest[i]).handle()]
            == b.values[rest[i].handle()] by {
            assert(rest[i] == todo[i]);
        }
        lemma_burden_frame(rest, a, b);
    }
}

/// The work that the elements of a tuple make takes what the elements take.
pub proof fn lemma_burden_children(
    closed: Seq<Item>,
    children: Seq<usize>,
    items: Seq<Native>,
    k: nat,
    world: World,
)
    requires
        k <= children.len(),
        children.len() == items.len(),
        forall|i: int| 0 <= i < children.len() ==> world.values[#[trigger] children[i]] == items[i],
    ensures
        burden(closed + visits(children.subrange(k as int, children.len() as int)), world)
            + works(items, k) == burden(closed, world) + works(items, items.len()),
    decreases children.len() - k,
{
    let n = children.len();
    let left = children.subrange(k as int, n as int);
    let todo = closed + visits(left);
    if k == n {
        assert(todo =~= closed);
    } else {
        lemma_visits_handles(left);
        let rest = left.drop_first();
        assert(rest =~= children.subrange(k as int + 1, n as int));
        assert(todo.last() == Item::Visit(children[k as int]));
        assert(todo.drop_last() =~= closed + visits(rest));
        lemma_burden_children(closed, children, items, k + 1, world);
    }
}

/// Every reply of an engine that keeps its word uses up fuel: a decoder of a
/// value is done after at most four calls for each value in it.
pub proof fn lemma_decoder_progress(
    d: DecoderView,
    world: World,
    base: World,
    reply: ReplyView,
    next: World,
)
    requires
        decoder_inv(d, world, base),
        d.request() is Some,
        world.step(d.request()->0, reply, next),
    ensures
        0 <= decoder_fuel(d.after(reply), next) < decoder_fuel(d, world),
{
    lemma_decoder_keeps(d, world, base, reply, next);
    lemma_decoder_accepts(d, world, reply, next);
    lemma_keeps_alive(world, base, handles(d.todo), d.tensors);
    let after = d.after(reply);
    let owned = handles(d.todo);
    if !(d.stage is Drop) {
        let top = d.todo.len() - 1;
        let h = d.todo.last().handle();
        let rest = d.todo.drop_last();
        assert(d.todo[top] == d.todo.last());
        assert(owned[top] == h);
        assert forall|i: int| 0 <= i < rest.len() implies (#[trigger] rest[i]).handle() != h
            && world.values.dom().contains(rest[i].handle()) by {
            assert(owned[i] == rest[i].handle());
            assert(rest[i] == d.todo[i]);
        }
        lemma_burden_floor(d.todo, world);
        lemma_burden_floor(rest, world);
        lemma_burden_floor(rest, next);
        lemma_burden_frame(rest, world, next);
        if d.stage is Elements && reply is Values {
            let children = reply->Values_0;
            let items = world.values[h]->Tuple_0;
            let closed = rest.push(Item::Close(h, children.len() as usize));
            assert(closed.last() == Item::Close(h, children.len() as usize));
            assert(closed.drop_last() =~= rest);
            assert(children.subrange(0, children.len() as int) =~= children);
            lemma_burden_children(closed, children, items, 0, next);
            lemma_burden_floor(after.todo, next);
            if children.len() == 0 {
                assert(after.todo =~= closed);
            } else {
                lemma_visits_handles(children);
                assert(after.todo.last() == visits(children)[children.len() - 1]);
            }
        } else if d.stage is Free || d.stage is Unwind {
            if rest.len() > 0 {
                assert(rest[rest.len() - 1] == rest.last());
            }
        } else {
            assert(next.values == world.values);
        }
    }
}

/// The handles of the tensors in `v`, in the order in which they are read.
pub open spec fn tensors_in(v: Value) -> Seq<usize>
    decreases v,
{
    match v {
        Value::Tensor(t) => seq![t],
        Value::Tuple(items) => tensors_among(items, items.len()),
        _ => Seq::empty(),
    }
}

/// The handles of the tensors in the first `k` of `items`, in order.
pub open spec fn tensors_among(items: Seq<Value>, k: nat) -> Seq<usize>
    decreases items, k,
{
    if k == 0 || k > items.len() {
        Seq::empty()
    } else {
        tensors_among(items, (k - 1) as nat) + tensors_in(items[k - 1])
    }
}

/// What holds of a decoder that has not failed: the tensors that it has
/// taken out are the tensors in the values that it has read, in order.
pub open spec fn tensors_kept(d: DecoderView) -> bool {
    d.stage is Unwind || d.stage is Drop || d.stage is Failed || d.tensors == tensors_among(
        d.values,
        d.values.len(),
    )
}

/// The tensors among the first values do not depend on the values after them.
pub proof fn lemma_tensors_prefix(a: Seq<Value>, b: Seq<Value>, k: nat)
    requires
        k <= a.len(),
    ensures
        tensors_among(a + b, k) == tensors_among(a, k),
    decreases k,
{
    if k > 0 {
        lemma_tensors_prefix(a, b, (k - 1) as nat);
    }
}

/// The tensors among values are those among the first of them, then those
/// among the rest.
pub proof fn lemma_tensors_concat(a: Seq<Value>, b: Seq<Value>, k: nat)
    requires
        k <= b.len(),
    ensures
        tensors_among(a + b, a.len() + k) == tensors_among(a, a.len()) + tensors_among(b, k),
    decreases k,
{
    if k == 0 {
        lemma_tensors_prefix(a, b, a.len());
        assert(tensors_among(a, a.len()) + Seq::<usize>::empty() =~= tensors_among(a, a.len()));
    } else {
        lemma_tensors_concat(a, b, (k - 1) as nat);
        assert((a + b)[a.len() + k - 1] == b[k - 1]);
        assert((tensors_among(a, a.len()) + tensors_among(b, (k - 1) as nat)) + tensors_in(
            b[k - 1],
        ) =~= tensors_among(a, a.len()) + tensors_among(b, k));
    }
}

/// The tensors among values with one more value are those among the
/// values, then those in the one.
pub proof fn lemma_tensors_push(values: Seq<Value>, v: Value)
    ensures
        tensors_among(values.push(v), values.len() + 1) == tensors_among(values, values.len())
            + tensors_in(v),
{
    let one = seq![v];
    assert(values.push(v) =~= values + one);
    lemma_tensors_concat(values, one, 1);
    assert(tensors_among(one, 0) =~= Seq::<usize>::empty());
    assert(tensors_among(one, 1) == tensors_among(one, 0) + tensors_in(one[0]));
    assert(tensors_among(one, 1) =~= tensors_in(v));
}

/// Every accepted reply leaves the tensors of a decoder those of its values.
pub proof fn lemma_tensors_kept(d: DecoderView, reply: ReplyView)
    requires
        d.wf(),
        tensors_kept(d),
        d.accepts(reply),
    ensures
        tensors_kept(d.after(reply)),
{
    let after = d.after(reply);
    let values = d.values;
    let len = values.len();
    let before = tensors_among(values, len);
    let none = Seq::<usize>::empty();
    if after.stage is Unwind || after.stage is Drop || after.stage is Failed {
    } else if d.stage is Free {
        if d.todo.last() is Close {
            let n = d.todo.last()->Close_1 as nat;
            assert(n <= len);
            let kept = values.subrange(0, len - n);
            let taken = values.subrange(len - n, len as int);
            assert(values =~= kept + taken);
            lemma_tensors_concat(kept, taken, taken.len());
            lemma_tensors_push(kept, Value::Tuple(taken));
            assert(after.values == kept.push(Value::Tuple(taken)));
            assert(after.tensors == d.tensors);
            assert(tensors_in(Value::Tuple(taken)) == tensors_among(taken, taken.len()));
        } else {
            assert(after.values == values);
            assert(after.tensors == d.tensors);
        }
    } else {
        match reply {
            ReplyView::Tensor(t) => {
                lemma_tensors_push(values, Value::Tensor(t));
                assert(after.values == values.push(Value::Tensor(t)));
                assert(after.tensors == d.tensors.push(t));
                assert(before + seq![t] =~= before.push(t));
            },
            ReplyView::Tag(tag) => {
                if tag == 0 {
                    lemma_tensors_push(values, Value::Empty);
                    assert(after.values == values.push(Value::Empty));
                    assert(before + none =~= before);
                } else {
                    assert(after.values == values);
                }
                assert(after.tensors == d.tensors);
            },
            ReplyView::Double(bits) => {
                lemma_tensors_push(values, Value::Double(bits));
                assert(after.values == values.push(Value::Double(bits)));
                assert(before + none =~= before);
            },
            ReplyView::Int(i) => {
                lemma_tensors_push(values, Value::Int(i));
                assert(after.values == values.push(Value::Int(i)));
                assert(before + none =~= before);
            },
            ReplyView::Bool(code) => {
                lemma_tensors_push(values, Value::Bool(code != 0));
                assert(after.values == values.push(Value::Bool(code != 0)));
                assert(before + none =~= before);
            },
            ReplyView::Bytes(bytes) => {
                let v = Value::Text(vstd::utf8::decode_utf8(bytes));
                lemma_tensors_push(values, v);
                assert(after.values == values.push(v));
                assert(before + none =~= before);
            },
            _ => {
                assert(after.values == values);
                assert(after.tensors == d.tensors);
            },
        }
    }
}

/// When a decoder has finished, the tensors that it has taken out are the
/// tensors of its result.
pub proof fn lemma_tensors_of_result(d: DecoderView)
    requires
        d.wf(),
        tensors_kept(d),
        d.stage is Finished,
    ensures
        d.tensors == tensors_in(d.values[0]),
{
    assert(tensors_among(d.values, 0) =~= Seq::<usize>::empty());
    assert(Seq::<usize>::empty() + tensors_in(d.values[0]) =~= tensors_in(d.values[0]));
}

} // verus!
