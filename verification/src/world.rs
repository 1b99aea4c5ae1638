//! A model of the engine, against which the conversions are proved.
//!
//! A [`World`] says which handles are alive and what stands behind each value
//! handle. [`World::permits`] says which calls may be made in a world, and
//! [`World::step`] which outcomes an engine that keeps its word may give and
//! what the world is afterwards. Any call may fail and then changes nothing.
//! Nothing here runs: the model is what the laws of this crate are about.
use vstd::prelude::*;
use crate::native::{bool_code, tag_of, Native};
use crate::protocol::{ReplyView, RequestView};
use crate::text::{c_string, has_nul};

verus! {

/// The bytes of a C string before its first NUL.
pub open spec fn c_text(c: Seq<u8>) -> Seq<u8>
    decreases c.len(),
{
    if c.len() == 0 || c[0] == 0u8 {
        Seq::empty()
    } else {
        seq![c[0]] + c_text(c.drop_first())
    }
}

/// A C string built from bytes without NUL holds those bytes.
pub proof fn lemma_c_text(bytes: Seq<u8>)
    requires
        !has_nul(bytes),
    ensures
        c_text(c_string(bytes)) == bytes,
    decreases bytes.len(),
{
    let c = c_string(bytes);
    if bytes.len() == 0 {
        assert(c[0] == 0u8);
    } else {
        assert(bytes[0] != 0u8);
        assert(c[0] == bytes[0]);
        let rest = bytes.drop_first();
        assert(c.drop_first() =~= c_string(rest));
        assert(!has_nul(rest)) by {
            if has_nul(rest) {
                let i = choose|i: int| 0 <= i < rest.len() && rest[i] == 0u8;
                assert(bytes[i + 1] == 0u8);
            }
        }
        lemma_c_text(rest);
        assert(seq![bytes[0]] + rest =~= bytes);
    }
}

/// The handles that are alive, and the value behind each value handle.
pub struct World {
    pub values: Map<usize, Native>,
    pub tensors: Set<usize>,
    pub modules: Set<usize>,
}

impl World {
    /// True when every handle of `hs` is the handle of a value.
    pub open spec fn has_all(self, hs: Seq<usize>) -> bool {
        forall|i: int| 0 <= i < hs.len() ==> self.values.dom().contains(#[trigger] hs[i])
    }

    /// True when every handle of `ts` is the handle of a tensor.
    pub open spec fn has_tensors(self, ts: Seq<usize>) -> bool {
        forall|i: int| 0 <= i < ts.len() ==> self.tensors.contains(#[trigger] ts[i])
    }

    /// The values behind the handles `hs`, in order.
    pub open spec fn contents(self, hs: Seq<usize>) -> Seq<Native> {
        Seq::new(hs.len(), |i: int| self.values[hs[i]])
    }

    /// True when `req` names only handles that are alive, each of its kind.
    pub open spec fn permits(self, req: RequestView) -> bool {
        match req {
            RequestView::MakeEmpty
            | RequestView::MakeDouble(_)
            | RequestView::MakeInt(_)
            | RequestView::MakeBool(_)
            | RequestView::Load(_) => true,
            RequestView::MakeString(c) => c.len() > 0 && c.last() == 0u8,
            RequestView::MakeTensor(t) | RequestView::FreeTensor(t) => self.tensors.contains(t),
            RequestView::MakeTuple(hs) => self.has_all(hs),
            RequestView::Tag(h)
            | RequestView::ToTensor(h)
            | RequestView::ToDouble(h)
            | RequestView::ToInt(h)
            | RequestView::ToBool(h)
            | RequestView::TupleLength(h)
            | RequestView::ToTuple(h, _)
            | RequestView::ToString(h)
            | RequestView::Free(h) => self.values.dom().contains(h),
            RequestView::Forward(m, ts) => self.modules.contains(m) && self.has_tensors(ts),
            RequestView::ForwardValues(m, hs) => self.modules.contains(m) && self.has_all(hs),
            RequestView::FreeModule(m) => self.modules.contains(m),
        }
    }

    /// The call failed and nothing has changed.
    pub open spec fn fails(self, reply: ReplyView, next: World) -> bool {
        reply is Failed && next == self
    }

    /// The call gave `answer` and nothing has changed.
    pub open spec fn reads(self, answer: ReplyView, reply: ReplyView, next: World) -> bool {
        reply == answer && next == self
    }

    /// The call gave a value handle that was not alive; `n` stands behind it now.
    pub open spec fn makes(self, n: Native, reply: ReplyView, next: World) -> bool {
        &&& reply is Value
        &&& !self.values.dom().contains(reply->Value_0)
        &&& next == World { values: self.values.insert(reply->Value_0, n), ..self }
    }

    /// The call gave a value handle that was not alive, with some value behind it.
    pub open spec fn makes_some(self, reply: ReplyView, next: World) -> bool {
        &&& reply is Value
        &&& !self.values.dom().contains(reply->Value_0)
        &&& next.values.dom().contains(reply->Value_0)
        &&& next == World { values: self.values.insert(reply->Value_0, next.values[reply->Value_0]), ..self }
    }

    /// The call gave a tensor handle that was not alive.
    pub open spec fn makes_tensor(self, reply: ReplyView, next: World) -> bool {
        &&& reply is Tensor
        &&& !self.tensors.contains(reply->Tensor_0)
        &&& next == World { tensors: self.tensors.insert(reply->Tensor_0), ..self }
    }

    /// The call gave one new value handle for each of `items`, all different
    /// and none alive before, with the item behind each.
    pub open spec fn spreads(self, items: Seq<Native>, reply: ReplyView, next: World) -> bool {
        &&& reply is Values
        &&& reply->Values_0.len() == items.len()
        &&& reply->Values_0.no_duplicates()
        &&& forall|i: int|
            0 <= i < items.len() ==> !self.values.dom().contains(#[trigger] reply->Values_0[i])
        &&& next.tensors == self.tensors
        &&& next.modules == self.modules
        &&& forall|h: usize| #[trigger]
            next.values.dom().contains(h) <==> self.values.dom().contains(h)
                || reply->Values_0.contains(h)
        &&& forall|h: usize| #[trigger]
            self.values.dom().contains(h) ==> next.values[h] == self.values[h]
        &&& forall|i: int| 0 <= i < items.len() ==> next.values[#[trigger] reply->Values_0[i]] == items[i]
    }

    /// True when an engine that keeps its word may answer `req` with `reply`
    /// in this world and leave the world `next`. A release never fails.
    pub open spec fn step(self, req: RequestView, reply: ReplyView, next: World) -> bool {
        ||| !(req is Free || req is FreeTensor || req is FreeModule) && self.fails(reply, next)
        ||| match req {
            RequestView::MakeEmpty => self.makes(Native::Empty, reply, next),
            RequestView::MakeTensor(t) => self.makes(Native::Tensor(t), reply, next),
            RequestView::MakeDouble(bits) => self.makes(Native::Double(bits), reply, next),
            RequestView::MakeInt(i) => self.makes(Native::Int(i), reply, next),
            RequestView::MakeBool(code) => self.makes(Native::Bool(code != 0), reply, next),
            RequestView::MakeString(c) => self.makes(Native::Text(c_text(c)), reply, next),
            RequestView::MakeTuple(hs) => self.makes(
                Native::Tuple(self.contents(hs)),
                reply,
                next,
            ),
            RequestView::Tag(h) => self.reads(
                ReplyView::Tag(tag_of(self.values[h])),
                reply,
                next,
            ),
            RequestView::ToTensor(h) => self.values[h] is Tensor && self.makes_tensor(reply, next),
            RequestView::ToDouble(h) => self.values[h] is Double && self.reads(
                ReplyView::Double(self.values[h]->Double_0),
                reply,
                next,
            ),
            RequestView::ToInt(h) => self.values[h] is Int && self.reads(
                ReplyView::Int(self.values[h]->Int_0),
                reply,
                next,
            ),
            RequestView::ToBool(h) => self.values[h] is Bool && self.reads(
                ReplyView::Bool(bool_code(self.values[h]->Bool_0)),
                reply,
                next,
            ),
            RequestView::TupleLength(h) => self.values[h] is Tuple && self.values[h]->Tuple_0.len()
                <= usize::MAX && self.reads(
                ReplyView::Length(self.values[h]->Tuple_0.len() as usize),
                reply,
                next,
            ),
            RequestView::ToTuple(h, n) => self.values[h] is Tuple && self.values[h]->Tuple_0.len()
                == n && self.spreads(self.values[h]->Tuple_0, reply, next),
            RequestView::ToString(h) => self.values[h] is Text && self.reads(
                ReplyView::Bytes(self.values[h]->Text_0),
                reply,
                next,
            ),
            RequestView::Free(h) => reply is Done && next == World {
                values: self.values.remove(h),
                ..self
            },
            RequestView::FreeTensor(t) => reply is Done && next == World {
                tensors: self.tensors.remove(t),
                ..self
            },
            RequestView::Load(_) => reply is Module && !self.modules.contains(reply->Module_0)
                && next == World { modules: self.modules.insert(reply->Module_0), ..self },
            RequestView::Forward(_, _) => self.makes_tensor(reply, next),
            RequestView::ForwardValues(_, _) => self.makes_some(reply, next),
            RequestView::FreeModule(m) => reply is Done && next == World {
                modules: self.modules.remove(m),
                ..self
            },
        }
    }
}

/// True when `now` is `before` and the handles of `owned`, each of which
/// is new and occurs once.
pub open spec fn extends(now: Set<usize>, before: Set<usize>, owned: Seq<usize>) -> bool {
    &&& owned.no_duplicates()
    &&& forall|i: int| 0 <= i < owned.len() ==> !before.contains(#[trigger] owned[i])
    &&& forall|h: usize| #[trigger] now.contains(h) <==> before.contains(h) || owned.contains(h)
}

/// A handle that is not alive can be owned beside the others.
pub proof fn lemma_extends_push(now: Set<usize>, before: Set<usize>, owned: Seq<usize>, h: usize)
    requires
        extends(now, before, owned),
        !now.contains(h),
    ensures
        extends(now.insert(h), before, owned.push(h)),
        !owned.contains(h),
{
    let more = owned.push(h);
    assert(!owned.contains(h));
    assert forall|i: int, j: int|
        0 <= i < more.len() && 0 <= j < more.len() && i != j implies more[i] != more[j] by {
        if i < owned.len() {
            assert(owned.contains(owned[i]));
        }
        if j < owned.len() {
            assert(owned.contains(owned[j]));
        }
    }
    assert forall|i: int| 0 <= i < more.len() implies !before.contains(#[trigger] more[i]) by {
        if i < owned.len() {
            assert(more[i] == owned[i]);
        }
    }
    assert forall|k: usize| #[trigger]
        now.insert(h).contains(k) <==> before.contains(k) || more.contains(k) by {
        if owned.contains(k) {
            let i = choose|i: int| 0 <= i < owned.len() && owned[i] == k;
            assert(more[i] == k);
        }
        if k == h {
            assert(more[owned.len() as int] == h);
        }
    }
}

/// A handle that was released is owned no longer.
pub proof fn lemma_extends_remove(now: Set<usize>, before: Set<usize>, owned: Seq<usize>, i: int)
    requires
        extends(now, before, owned),
        0 <= i < owned.len(),
    ensures
        extends(now.remove(owned[i]), before, owned.remove(i)),
        now.contains(owned[i]),
        !owned.remove(i).contains(owned[i]),
{
    let h = owned[i];
    let fewer = owned.remove(i);
    assert(owned.contains(h));
    assert forall|a: int, b: int|
        0 <= a < fewer.len() && 0 <= b < fewer.len() && a != b implies fewer[a] != fewer[b] by {
        let a0 = if a < i {
            a
        } else {
            a + 1
        };
        let b0 = if b < i {
            b
        } else {
            b + 1
        };
        assert(fewer[a] == owned[a0]);
        assert(fewer[b] == owned[b0]);
    }
    assert forall|a: int| 0 <= a < fewer.len() implies !before.contains(#[trigger] fewer[a]) by {
        let a0 = if a < i {
            a
        } else {
            a + 1
        };
        assert(fewer[a] == owned[a0]);
    }
    assert(!fewer.contains(h)) by {
        if fewer.contains(h) {
            let j = choose|j: int| 0 <= j < fewer.len() && fewer[j] == h;
            let j0 = if j < i {
                j
            } else {
                j + 1
            };
            assert(fewer[j] == owned[j0]);
        }
    }
    assert forall|k: usize| #[trigger]
        now.remove(h).contains(k) <==> before.contains(k) || fewer.contains(k) by {
        if fewer.contains(k) {
            let j = choose|j: int| 0 <= j < fewer.len() && fewer[j] == k;
            if j < i {
                assert(owned[j] == k);
            } else {
                assert(owned[j + 1] == k);
            }
        }
        if owned.contains(k) && k != h {
            let j = choose|j: int| 0 <= j < owned.len() && owned[j] == k;
            if j < i {
                assert(fewer[j] == k);
            } else {
                assert(fewer[j - 1] == k);
            }
        }
    }
}

/// Handles that are new, and each different from the others, can be owned
/// beside those that are owned, in any order.
pub proof fn lemma_extends_append(
    now: Set<usize>,
    before: Set<usize>,
    owned: Seq<usize>,
    next: Set<usize>,
    fresh: Seq<usize>,
    added: Seq<usize>,
)
    requires
        extends(now, before, owned),
        fresh.no_duplicates(),
        forall|i: int| 0 <= i < fresh.len() ==> !now.contains(#[trigger] fresh[i]),
        forall|h: usize| #[trigger] next.contains(h) <==> now.contains(h) || fresh.contains(h),
        added.len() == fresh.len(),
        forall|i: int| 0 <= i < added.len() ==> #[trigger] added[i] == fresh[fresh.len() - 1 - i],
    ensures
        extends(next, before, owned + added),
{
    let all = owned + added;
    assert forall|i: int| 0 <= i < all.len() implies !before.contains(#[trigger] all[i]) by {
        if i >= owned.len() {
            let j = fresh.len() - 1 - (i - owned.len());
            assert(all[i] == added[i - owned.len()]);
            assert(all[i] == fresh[j]);
        }
    }
    assert forall|i: int, j: int|
        0 <= i < all.len() && 0 <= j < all.len() && i != j implies all[i] != all[j] by {
        if i < owned.len() {
            assert(owned.contains(owned[i]));
        } else {
            assert(all[i] == added[i - owned.len()]);
            assert(all[i] == fresh[fresh.len() - 1 - (i - owned.len())]);
        }
        if j < owned.len() {
            assert(owned.contains(owned[j]));
        } else {
            assert(all[j] == added[j - owned.len()]);
            assert(all[j] == fresh[fresh.len() - 1 - (j - owned.len())]);
        }
    }
    assert forall|k: usize| #[trigger] next.contains(k) <==> before.contains(k) || all.contains(
        k,
    ) by {
        if owned.contains(k) {
            let i = choose|i: int| 0 <= i < owned.len() && owned[i] == k;
            assert(all[i] == k);
        }
        if fresh.contains(k) {
            let i = choose|i: int| 0 <= i < fresh.len() && fresh[i] == k;
            let j = fresh.len() - 1 - i;
            assert(added[j] == fresh[i]);
            assert(all[owned.len() + j] == k);
        }
        if all.contains(k) {
            let i = choose|i: int| 0 <= i < all.len() && all[i] == k;
            if i < owned.len() {
                assert(owned.contains(k));
            } else {
                assert(all[i] == added[i - owned.len()]);
                let j = fresh.len() - 1 - (i - owned.len());
                assert(fresh[j] == k);
                assert(fresh.contains(k));
            }
        }
    }
}

/// Every handle that is owned is alive.
pub proof fn lemma_extends_alive(now: Set<usize>, before: Set<usize>, owned: Seq<usize>)
    requires
        extends(now, before, owned),
    ensures
        forall|i: int| 0 <= i < owned.len() ==> now.contains(#[trigger] owned[i]),
{
    assert forall|i: int| 0 <= i < owned.len() implies now.contains(#[trigger] owned[i]) by {
        assert(owned.contains(owned[i]));
    }
}

/// True when `world` is `base` and, beside it, a value behind each handle of
/// `values` and a tensor behind each handle of `tensors`.
pub open spec fn keeps(world: World, base: World, values: Seq<usize>, tensors: Seq<usize>) -> bool {
    &&& world.modules == base.modules
    &&& extends(world.values.dom(), base.values.dom(), values)
    &&& extends(world.tensors, base.tensors, tensors)
    &&& forall|h: usize| #[trigger]
        base.values.dom().contains(h) ==> world.values[h] == base.values[h]
}

/// A world that keeps nothing beside `base` is `base`.
pub proof fn lemma_keeps_nothing(world: World, base: World)
    requires
        keeps(world, base, Seq::empty(), Seq::empty()),
    ensures
        world == base,
{
    assert forall|h: usize| world.values.dom().contains(h) == base.values.dom().contains(h) by {
        assert(!Seq::<usize>::empty().contains(h));
    }
    assert forall|t: usize| world.tensors.contains(t) == base.tensors.contains(t) by {
        assert(!Seq::<usize>::empty().contains(t));
    }
    assert(world.values.dom() =~= base.values.dom());
    assert(world.values =~= base.values);
    assert(world.tensors =~= base.tensors);
}

/// Every world keeps nothing beside itself.
pub proof fn lemma_keeps_self(world: World)
    ensures
        keeps(world, world, Seq::empty(), Seq::empty()),
{
}

/// A new value handle is kept on top of the others.
pub proof fn lemma_keeps_value(
    world: World,
    base: World,
    values: Seq<usize>,
    tensors: Seq<usize>,
    h: usize,
    n: Native,
)
    requires
        keeps(world, base, values, tensors),
        !world.values.dom().contains(h),
    ensures
        keeps(
            World { values: world.values.insert(h, n), ..world },
            base,
            values.push(h),
            tensors,
        ),
        !values.contains(h),
{
    lemma_extends_push(world.values.dom(), base.values.dom(), values, h);
    assert(world.values.insert(h, n).dom() =~= world.values.dom().insert(h));
}

/// A value handle that was released is kept no longer.
pub proof fn lemma_keeps_release(
    world: World,
    base: World,
    values: Seq<usize>,
    tensors: Seq<usize>,
    i: int,
)
    requires
        keeps(world, base, values, tensors),
        0 <= i < values.len(),
    ensures
        keeps(
            World { values: world.values.remove(values[i]), ..world },
            base,
            values.remove(i),
            tensors,
        ),
        world.values.dom().contains(values[i]),
{
    lemma_extends_remove(world.values.dom(), base.values.dom(), values, i);
    assert(world.values.remove(values[i]).dom() =~= world.values.dom().remove(values[i]));
    assert(!base.values.dom().contains(values[i]));
}

/// A new tensor handle is kept on top of the others.
pub proof fn lemma_keeps_tensor(
    world: World,
    base: World,
    values: Seq<usize>,
    tensors: Seq<usize>,
    t: usize,
)
    requires
        keeps(world, base, values, tensors),
        !world.tensors.contains(t),
    ensures
        keeps(World { tensors: world.tensors.insert(t), ..world }, base, values, tensors.push(t)),
{
    lemma_extends_push(world.tensors, base.tensors, tensors, t);
}

/// The tensor handle that was released last is kept no longer.
pub proof fn lemma_keeps_release_tensor(
    world: World,
    base: World,
    values: Seq<usize>,
    tensors: Seq<usize>,
)
    requires
        keeps(world, base, values, tensors),
        tensors.len() > 0,
    ensures
        keeps(
            World { tensors: world.tensors.remove(tensors.last()), ..world },
            base,
            values,
            tensors.drop_last(),
        ),
        world.tensors.contains(tensors.last()),
{
    lemma_extends_remove(world.tensors, base.tensors, tensors, tensors.len() - 1);
    assert(tensors.remove(tensors.len() - 1) =~= tensors.drop_last());
}

/// Every handle that is kept is alive.
pub proof fn lemma_keeps_alive(world: World, base: World, values: Seq<usize>, tensors: Seq<usize>)
    requires
        keeps(world, base, values, tensors),
    ensures
        world.has_all(values),
        world.has_tensors(tensors),
{
    lemma_extends_alive(world.values.dom(), base.values.dom(), values);
    lemma_extends_alive(world.tensors, base.tensors, tensors);
}

} // verus!
