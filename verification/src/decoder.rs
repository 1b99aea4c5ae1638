//! Reading native values back into tagged values.
//!
//! A [`Decoder`] owns the handle it is given and every handle that the
//! engine gives it on the way. It keeps the handles still to be read on a
//! stack of work, reads each by its tag, releases each once it is read, and
//! puts a tuple together when the last of its elements is in. After a
//! failure it releases the handles it still owns, and the tensors it has
//! taken out, before the error is given out.
use vstd::prelude::*;
use vstd::utf8::*;
use crate::error::ConversionError;
use crate::protocol::{request_view, Reply, ReplyView, Request, RequestView};
use crate::text::decode_text;
use crate::value::{lemma_tuple_view, lemma_values_view_push, values_view, IValue, Tensor, Value};

verus! {

/// A piece of work that a [`Decoder`] has before it.
#[derive(Clone, Copy, Debug, PartialEq, Eq)]
pub enum Item {
    /// Read the value behind this handle, then release it.
    Visit(usize),
    /// Release this handle, a tuple's, and make the tuple of the values read
    /// last, as many as given.
    Close(usize, usize),
}

impl Item {
    /// The handle that the piece of work owns.
    pub open spec fn handle(self) -> usize {
        match self {
            Item::Visit(h) => h,
            Item::Close(h, _) => h,
        }
    }
}

/// The work that the elements of a tuple make, the first element on top.
pub open spec fn visits(children: Seq<usize>) -> Seq<Item>
    decreases children.len(),
{
    if children.len() == 0 {
        Seq::empty()
    } else {
        visits(children.drop_first()).push(Item::Visit(children[0]))
    }
}

/// The number of values that are there when the work in `todo` is done,
/// from the top down, with `k` values there before it. `None` when a tuple
/// would ask for more values than there are.
pub open spec fn settles(todo: Seq<Item>, k: nat) -> Option<nat>
    decreases todo.len(),
{
    if todo.len() == 0 {
        Some(k)
    } else {
        match todo.last() {
            Item::Visit(_) => settles(todo.drop_last(), k + 1),
            Item::Close(_, n) => if n <= k {
                settles(todo.drop_last(), (k - n + 1) as nat)
            } else {
                None
            },
        }
    }
}

/// Where a [`Decoder`] stands.
pub enum DecoderStage {
    /// The tag of the topmost handle is being read.
    Tag,
    /// The topmost handle is being read as a tensor.
    Tensor,
    /// The topmost handle is being read as a floating-point number.
    Double,
    /// The topmost handle is being read as an integer.
    Int,
    /// The topmost handle is being read as a boolean.
    Bool,
    /// The length of the tuple behind the topmost handle is being read.
    Length,
    /// That many elements of the tuple behind the topmost handle are being read.
    Elements(usize),
    /// The topmost handle is being read as a string.
    Text,
    /// The topmost handle is being released after its value was read.
    Free,
    /// The conversion has failed; the topmost handle is being released.
    Unwind(ConversionError),
    /// The conversion has failed; the tensor taken out last is being released.
    Drop(ConversionError),
    /// The value is read and nothing is left to release.
    Finished,
    /// The conversion has failed and nothing is owned any more.
    Failed(ConversionError),
}

impl DecoderStage {
    /// True while a value is being read.
    pub open spec fn reading(self) -> bool {
        match self {
            DecoderStage::Tag
            | DecoderStage::Tensor
            | DecoderStage::Double
            | DecoderStage::Int
            | DecoderStage::Bool
            | DecoderStage::Length
            | DecoderStage::Elements(_)
            | DecoderStage::Text => true,
            _ => false,
        }
    }

    /// True while a handle is being released.
    pub open spec fn releasing(self) -> bool {
        self is Free || self is Unwind || self is Drop
    }
}

/// The state of a [`Decoder`].
pub struct DecoderView {
    /// The work still to do, the next piece last.
    pub todo: Seq<Item>,
    /// The values read so far that are in no tuple yet, oldest first.
    pub values: Seq<Value>,
    /// The tensors taken out so far, oldest first.
    pub tensors: Seq<usize>,
    pub stage: DecoderStage,
}

impl DecoderView {
    /// The state in which `e` has made the conversion fail.
    pub open spec fn fail(self, e: ConversionError) -> DecoderView {
        DecoderView {
            stage: if self.todo.len() > 0 {
                DecoderStage::Unwind(e)
            } else if self.tensors.len() > 0 {
                DecoderStage::Drop(e)
            } else {
                DecoderStage::Failed(e)
            },
            ..self
        }
    }

    /// The state on taking up the topmost piece of work.
    pub open spec fn arrive(self) -> DecoderView {
        DecoderView {
            stage: if self.todo.len() == 0 {
                DecoderStage::Finished
            } else if self.todo.last() is Visit {
                DecoderStage::Tag
            } else {
                DecoderStage::Free
            },
            ..self
        }
    }

    /// The state in which the conversion of the value behind `handle` begins.
    pub open spec fn start(handle: usize) -> DecoderView {
        DecoderView {
            todo: seq![Item::Visit(handle)],
            values: Seq::empty(),
            tensors: Seq::empty(),
            stage: DecoderStage::Tag,
        }
    }

    /// The state after the topmost handle was read as `v`.
    pub open spec fn leaf(self, v: Value) -> DecoderView {
        DecoderView { values: self.values.push(v), stage: DecoderStage::Free, ..self }
    }

    /// The state after the topmost handle was found to have `tag`.
    pub open spec fn dispatch(self, tag: i32) -> DecoderView {
        if tag == 0 {
            self.leaf(Value::Empty)
        } else if tag == 1 {
            DecoderView { stage: DecoderStage::Tensor, ..self }
        } else if tag == 2 {
            DecoderView { stage: DecoderStage::Double, ..self }
        } else if tag == 3 {
            DecoderView { stage: DecoderStage::Int, ..self }
        } else if tag == 4 {
            DecoderView { stage: DecoderStage::Bool, ..self }
        } else if tag == 5 {
            DecoderView { stage: DecoderStage::Length, ..self }
        } else if tag == 9 {
            DecoderView { stage: DecoderStage::Text, ..self }
        } else {
            self.fail(ConversionError::UnrecognizedTag(tag))
        }
    }

    /// The state after the topmost handle, a tuple's, gave out `children`.
    pub open spec fn open(self, children: Seq<usize>) -> DecoderView {
        DecoderView {
            todo: self.todo.drop_last().push(
                Item::Close(self.todo.last().handle(), children.len() as usize),
            ) + visits(children),
            ..self
        }.arrive()
    }

    /// The state after the topmost handle was released.
    pub open spec fn close(self) -> DecoderView {
        match self.todo.last() {
            Item::Visit(_) => DecoderView { todo: self.todo.drop_last(), ..self }.arrive(),
            Item::Close(_, n) => DecoderView {
                todo: self.todo.drop_last(),
                values: self.values.subrange(0, self.values.len() - n).push(
                    Value::Tuple(
                        self.values.subrange(self.values.len() - n, self.values.len() as int),
                    ),
                ),
                ..self
            }.arrive(),
        }
    }

    /// The call that is under way, if any.
    pub open spec fn request(self) -> Option<RequestView> {
        let h = self.todo.last().handle();
        match self.stage {
            DecoderStage::Tag => Some(RequestView::Tag(h)),
            DecoderStage::Tensor => Some(RequestView::ToTensor(h)),
            DecoderStage::Double => Some(RequestView::ToDouble(h)),
            DecoderStage::Int => Some(RequestView::ToInt(h)),
            DecoderStage::Bool => Some(RequestView::ToBool(h)),
            DecoderStage::Length => Some(RequestView::TupleLength(h)),
            DecoderStage::Elements(n) => Some(RequestView::ToTuple(h, n)),
            DecoderStage::Text => Some(RequestView::ToString(h)),
            DecoderStage::Free | DecoderStage::Unwind(_) => Some(RequestView::Free(h)),
            DecoderStage::Drop(_) => Some(RequestView::FreeTensor(self.tensors.last())),
            DecoderStage::Finished | DecoderStage::Failed(_) => None,
        }
    }

    /// True when `reply` is an outcome of the call under way.
    pub open spec fn accepts(self, reply: ReplyView) -> bool {
        if self.stage.reading() && reply is Failed {
            true
        } else {
            match self.stage {
                DecoderStage::Tag => reply is Tag,
                DecoderStage::Tensor => reply is Tensor,
                DecoderStage::Double => reply is Double,
                DecoderStage::Int => reply is Int,
                DecoderStage::Bool => reply is Bool,
                DecoderStage::Length => reply is Length,
                DecoderStage::Elements(n) => reply is Values && reply->Values_0.len() == n,
                DecoderStage::Text => reply is Bytes,
                DecoderStage::Free | DecoderStage::Unwind(_) | DecoderStage::Drop(_) => reply
                    is Done,
                DecoderStage::Finished | DecoderStage::Failed(_) => false,
            }
        }
    }

    /// The state after `reply` has come in for the call under way.
    pub open spec fn after(self, reply: ReplyView) -> DecoderView {
        match (self.stage, reply) {
            (DecoderStage::Unwind(e), _) => DecoderView {
                todo: self.todo.drop_last(),
                ..self
            }.fail(e),
            (DecoderStage::Drop(e), _) => DecoderView {
                tensors: self.tensors.drop_last(),
                ..self
            }.fail(e),
            (DecoderStage::Free, _) => self.close(),
            (_, ReplyView::Failed(message)) => self.fail(ConversionError::Native(message)),
            (_, ReplyView::Tag(tag)) => self.dispatch(tag),
            (_, ReplyView::Tensor(t)) => DecoderView {
                tensors: self.tensors.push(t),
                ..self
            }.leaf(Value::Tensor(t)),
            (_, ReplyView::Double(bits)) => self.leaf(Value::Double(bits)),
            (_, ReplyView::Int(i)) => self.leaf(Value::Int(i)),
            (_, ReplyView::Bool(code)) => if code < 0 {
                self.fail(ConversionError::UnexpectedBoolEncoding(code))
            } else {
                self.leaf(Value::Bool(code != 0))
            },
            (_, ReplyView::Length(n)) => DecoderView { stage: DecoderStage::Elements(n), ..self },
            (_, ReplyView::Values(children)) => self.open(children),
            (_, ReplyView::Bytes(bytes)) => if valid_utf8(bytes) {
                self.leaf(Value::Text(decode_utf8(bytes)))
            } else {
                self.fail(ConversionError::UndecodableStringBytes)
            },
            _ => self,
        }
    }

    /// True of the states that a decoder can be in.
    pub open spec fn wf(self) -> bool {
        match self.stage {
            DecoderStage::Free => {
                &&& self.todo.len() > 0
                &&& match self.todo.last() {
                    Item::Visit(_) => self.values.len() > 0 && settles(
                        self.todo.drop_last(),
                        self.values.len(),
                    ) == Some(1nat),
                    Item::Close(_, _) => settles(self.todo, self.values.len()) == Some(1nat),
                }
            },
            DecoderStage::Unwind(_) => self.todo.len() > 0,
            DecoderStage::Drop(_) => self.todo.len() == 0 && self.tensors.len() > 0,
            DecoderStage::Finished => self.todo.len() == 0 && self.values.len() == 1,
            DecoderStage::Failed(_) => self.todo.len() == 0 && self.tensors.len() == 0,
            _ => {
                &&& self.todo.len() > 0
                &&& self.todo.last() is Visit
                &&& settles(self.todo, self.values.len()) == Some(1nat)
            },
        }
    }
}

/// The elements of a tuple add one value each to what is there.
pub proof fn lemma_settles_visits(base: Seq<Item>, children: Seq<usize>, k: nat)
    ensures
        settles(base + visits(children), k) == settles(base, k + children.len()),
    decreases children.len(),
{
    if children.len() == 0 {
        assert(base + visits(children) =~= base);
    } else {
        let rest = children.drop_first();
        let whole = base + visits(children);
        assert(whole.last() == Item::Visit(children[0]));
        assert(whole.drop_last() =~= base + visits(rest));
        lemma_settles_visits(base, rest, k + 1);
    }
}

/// A decoder begins in a state that a decoder can be in.
pub proof fn lemma_decoder_start(handle: usize)
    ensures
        DecoderView::start(handle).wf(),
{
    let todo = seq![Item::Visit(handle)];
    assert(todo.drop_last() =~= Seq::<Item>::empty());
    assert(settles(todo.drop_last(), 1) == Some(1nat));
}

/// Every accepted reply keeps the state within [`DecoderView::wf`].
pub proof fn lemma_decoder_step(s: DecoderView, reply: ReplyView)
    requires
        s.wf(),
        s.accepts(reply),
    ensures
        s.after(reply).wf(),
{
    if s.stage is Elements && reply is Values {
        let children = reply->Values_0;
        let h = s.todo.last().handle();
        let rest = s.todo.drop_last();
        let base = rest.push(Item::Close(h, children.len() as usize));
        lemma_settles_visits(base, children, s.values.len());
        assert(base.drop_last() =~= rest);
        assert(s.todo =~= rest.push(s.todo.last()));
        let next = base + visits(children);
        if children.len() > 0 {
            assert(next.last() == Item::Visit(children[0]));
        } else {
            assert(next =~= base);
        }
    }
}

/// Where a [`Decoder`] stands; its error lies beside it.
#[derive(Clone, Copy)]
enum Stage {
    Tag,
    Tensor,
    Double,
    Int,
    Bool,
    Length,
    Elements(usize),
    Text,
    Free,
    Unwind,
    Drop,
    Finished,
    Failed,
}

/// The conversion of a native value into a tagged value, one call at a time.
pub struct Decoder {
    todo: Vec<Item>,
    values: Vec<IValue>,
    tensors: Vec<usize>,
    stage: Stage,
    error: Option<ConversionError>,
}

impl View for Decoder {
    type V = DecoderView;

    closed spec fn view(&self) -> DecoderView {
        DecoderView {
            todo: self.todo@,
            values: values_view(self.values@),
            tensors: self.tensors@,
            stage: match self.stage {
                Stage::Tag => DecoderStage::Tag,
                Stage::Tensor => DecoderStage::Tensor,
                Stage::Double => DecoderStage::Double,
                Stage::Int => DecoderStage::Int,
                Stage::Bool => DecoderStage::Bool,
                Stage::Length => DecoderStage::Length,
                Stage::Elements(n) => DecoderStage::Elements(n),
                Stage::Text => DecoderStage::Text,
                Stage::Free => DecoderStage::Free,
                Stage::Unwind => DecoderStage::Unwind(self.error->0),
                Stage::Drop => DecoderStage::Drop(self.error->0),
                Stage::Finished => DecoderStage::Finished,
                Stage::Failed => DecoderStage::Failed(self.error->0),
            },
        }
    }
}

impl Decoder {
    /// True of every decoder that this module hands out.
    pub closed spec fn wf(&self) -> bool {
        &&& self@.wf()
        &&& (self.stage is Unwind || self.stage is Drop || self.stage is Failed) ==> self.error
            is Some
    }

    /// The state of a decoder is one that a decoder can be in.
    pub proof fn lemma_wf(&self)
        requires
            self.wf(),
        ensures
            self@.wf(),
    {
    }

    /// Begins the conversion of the value behind `handle`, which the decoder owns from now on.
    pub fn new(handle: usize) -> (dec: Decoder)
        ensures
            dec.wf(),
            dec@ == DecoderView::start(handle),
    {
        let mut todo: Vec<Item> = Vec::new();
        todo.push(Item::Visit(handle));
        let dec = Decoder {
            todo,
            values: Vec::new(),
            tensors: Vec::new(),
            stage: Stage::Tag,
            error: None,
        };
        proof {
            assert(dec@.todo =~= seq![Item::Visit(handle)]);
            assert(dec@.values =~= Seq::<Value>::empty());
            lemma_decoder_start(handle);
        }
        dec
    }

    /// Gives the conversion up for `e`.
    fn fail(&mut self, e: ConversionError)
        ensures
            final(self)@ == old(self)@.fail(e),
            final(self).error == Some(e),
            final(self).stage is Unwind || final(self).stage is Drop || final(self).stage is Failed,
    {
        self.stage = if self.todo.len() > 0 {
            Stage::Unwind
        } else if self.tensors.len() > 0 {
            Stage::Drop
        } else {
            Stage::Failed
        };
        self.error = Some(e);
    }

    /// Goes on unwinding after a release.
    fn unwind(&mut self)
        requires
            old(self).error is Some,
        ensures
            final(self)@ == old(self)@.fail(old(self).error->0),
            final(self).error == old(self).error,
            final(self).stage is Unwind || final(self).stage is Drop || final(self).stage is Failed,
    {
        self.stage = if self.todo.len() > 0 {
            Stage::Unwind
        } else if self.tensors.len() > 0 {
            Stage::Drop
        } else {
            Stage::Failed
        };
    }

    /// Takes up the topmost piece of work.
    fn arrive(&mut self)
        ensures
            final(self)@ == old(self)@.arrive(),
            !(final(self).stage is Unwind || final(self).stage is Drop || final(self).stage
                is Failed),
    {
        self.stage = if self.todo.len() == 0 {
            Stage::Finished
        } else {
            match self.todo[self.todo.len() - 1] {
                Item::Visit(_) => Stage::Tag,
                Item::Close(_, _) => Stage::Free,
            }
        };
    }

    /// Keeps a value that was read from the topmost handle.
    fn leaf(&mut self, v: IValue)
        ensures
            final(self)@ == old(self)@.leaf(v@),
            final(self).stage is Free,
            final(self).tensors == old(self).tensors,
    {
        proof {
            lemma_values_view_push(self.values@, v);
        }
        self.values.push(v);
        self.stage = Stage::Free;
    }

    /// Goes by the tag of the topmost handle.
    fn dispatch(&mut self, tag: i32)
        ensures
            final(self)@ == old(self)@.dispatch(tag),
            (final(self).stage is Unwind || final(self).stage is Drop || final(self).stage
                is Failed) ==> final(self).error is Some,
    {
        if tag == 0 {
            self.leaf(IValue::Empty);
        } else if tag == 1 {
            self.stage = Stage::Tensor;
        } else if tag == 2 {
            self.stage = Stage::Double;
        } else if tag == 3 {
            self.stage = Stage::Int;
        } else if tag == 4 {
            self.stage = Stage::Bool;
        } else if tag == 5 {
            self.stage = Stage::Length;
        } else if tag == 9 {
            self.stage = Stage::Text;
        } else {
            self.fail(ConversionError::UnrecognizedTag(tag));
        }
    }

    /// Puts the elements of the topmost handle, a tuple's, on the work to do.
    fn open(&mut self, children: Vec<usize>)
        requires
            old(self).todo.len() > 0,
        ensures
            final(self)@ == old(self)@.open(children@),
            !(final(self).stage is Unwind || final(self).stage is Drop || final(self).stage
                is Failed),
    {
        let top = self.todo.pop().unwrap();
        let h = match top {
            Item::Visit(h) => h,
            Item::Close(h, _) => h,
        };
        self.todo.push(Item::Close(h, children.len()));
        let ghost base = self.todo@;
        let mut i: usize = children.len();
        assert(children@.subrange(i as int, children.len() as int) =~= Seq::<usize>::empty());
        assert(base + visits(Seq::<usize>::empty()) =~= base);
        while i > 0
            invariant
                i <= children.len(),
                self.todo@ == base + visits(children@.subrange(i as int, children.len() as int)),
                self.values == old(self).values,
                self.tensors == old(self).tensors,
            decreases i,
        {
            let ghost done = children@.subrange(i as int, children.len() as int);
            i -= 1;
            self.todo.push(Item::Visit(children[i]));
            proof {
                let now = children@.subrange(i as int, children.len() as int);
                assert(now.drop_first() =~= done);
                assert(self.todo@ =~= base + visits(now));
            }
        }
        assert(children@.subrange(0, children.len() as int) =~= children@);
        self.arrive();
    }

    /// Ends the topmost piece of work once its handle is released.
    fn close(&mut self)
        requires
            old(self).todo.len() > 0,
            old(self).todo@.last() matches Item::Close(_, n) ==> n <= old(self).values.len(),
        ensures
            final(self)@ == old(self)@.close(),
            !(final(self).stage is Unwind || final(self).stage is Drop || final(self).stage
                is Failed),
    {
        let ghost before = values_view(self.values@);
        let top = self.todo.pop().unwrap();
        match top {
            Item::Visit(_) => {},
            Item::Close(_, n) => {
                let start: usize = self.values.len() - n;
                let items = self.values.split_off(start);
                let ghost kept = self.values@;
                let tuple = IValue::Tuple(items);
                proof {
                    lemma_tuple_view(items);
                    lemma_values_view_push(kept, tuple);
                    assert(values_view(items@) =~= before.subrange(
                        start as int,
                        before.len() as int,
                    ));
                    assert(values_view(kept) =~= before.subrange(0, start as int));
                }
                self.values.push(tuple);
            },
        }
        self.arrive();
    }

    /// The call to make now, or `None` when the conversion is over.
    pub fn request(&self) -> (req: Option<Request>)
        requires
            self.wf(),
        ensures
            request_view(req) == self@.request(),
    {
        match self.stage {
            Stage::Finished | Stage::Failed => None,
            Stage::Drop => Some(Request::FreeTensor(self.tensors[self.tensors.len() - 1])),
            _ => {
                let h = match self.todo[self.todo.len() - 1] {
                    Item::Visit(h) => h,
                    Item::Close(h, _) => h,
                };
                Some(
                    match self.stage {
                        Stage::Tag => Request::Tag(h),
                        Stage::Tensor => Request::ToTensor(h),
                        Stage::Double => Request::ToDouble(h),
                        Stage::Int => Request::ToInt(h),
                        Stage::Bool => Request::ToBool(h),
                        Stage::Length => Request::TupleLength(h),
                        Stage::Elements(n) => Request::ToTuple(h, n),
                        Stage::Text => Request::ToString(h),
                        _ => Request::Free(h),
                    },
                )
            },
        }
    }

    /// Takes the outcome of the call under way. A reply that is no outcome of
    /// that call is turned away and changes nothing.
    pub fn resume(&mut self, reply: Reply) -> (accepted: bool)
        requires
            old(self).wf(),
        ensures
            final(self).wf(),
            accepted == old(self)@.accepts(reply@),
            final(self)@ == if accepted {
                old(self)@.after(reply@)
            } else {
                old(self)@
            },
    {
        proof {
            if self@.accepts(reply@) {
                lemma_decoder_step(self@, reply@);
            }
        }
        match self.stage {
            Stage::Finished | Stage::Failed => false,
            Stage::Free => match reply {
                Reply::Done => {
                    self.close();
                    true
                },
                _ => false,
            },
            Stage::Unwind => match reply {
                Reply::Done => {
                    self.todo.pop();
                    self.unwind();
                    true
                },
                _ => false,
            },
            Stage::Drop => match reply {
                Reply::Done => {
                    self.tensors.pop();
                    self.unwind();
                    true
                },
                _ => false,
            },
            stage => match reply {
                Reply::Failed(message) => {
                    self.fail(ConversionError::Native(message));
                    true
                },
                Reply::Tag(tag) => {
                    if let Stage::Tag = stage {
                        self.dispatch(tag);
                        true
                    } else {
                        false
                    }
                },
                Reply::Tensor(t) => {
                    if let Stage::Tensor = stage {
                        self.tensors.push(t);
                        self.leaf(IValue::Tensor(Tensor { handle: t }));
                        true
                    } else {
                        false
                    }
                },
                Reply::Double(bits) => {
                    if let Stage::Double = stage {
                        self.leaf(IValue::Double(bits));
                        true
                    } else {
                        false
                    }
                },
                Reply::Int(i) => {
                    if let Stage::Int = stage {
                        self.leaf(IValue::Int(i));
                        true
                    } else {
                        false
                    }
                },
                Reply::Bool(code) => {
                    if let Stage::Bool = stage {
                        if code < 0 {
                            self.fail(ConversionError::UnexpectedBoolEncoding(code));
                        } else {
                            self.leaf(IValue::Bool(code != 0));
                        }
                        true
                    } else {
                        false
                    }
                },
                Reply::Length(n) => {
                    if let Stage::Length = stage {
                        self.stage = Stage::Elements(n);
                        true
                    } else {
                        false
                    }
                },
                Reply::Values(children) => {
                    let fits = match stage {
                        Stage::Elements(n) => children.len() == n,
                        _ => false,
                    };
                    if fits {
                        self.open(children);
                    }
                    fits
                },
                Reply::Bytes(bytes) => {
                    if let Stage::Text = stage {
                        match decode_text(bytes) {
                            Some(s) => {
                                self.leaf(IValue::String(s));
                            },
                            None => {
                                self.fail(ConversionError::UndecodableStringBytes);
                            },
                        }
                        true
                    } else {
                        false
                    }
                },
                _ => false,
            },
        }
    }

    /// True when no call is left to make.
    pub fn is_done(&self) -> (done: bool)
        ensures
            done == (self@.stage is Finished || self@.stage is Failed),
    {
        match self.stage {
            Stage::Finished | Stage::Failed => true,
            _ => false,
        }
    }

    /// Ends the conversion: the value that was read, or the error. `None`
    /// while calls are left to make.
    pub fn finish(self) -> (out: Option<Result<IValue, ConversionError>>)
        requires
            self.wf(),
        ensures
            match self@.stage {
                DecoderStage::Finished => out matches Some(Ok(v)) && v@ == self@.values[0],
                DecoderStage::Failed(e) => out == Some(Err::<IValue, ConversionError>(e)),
                _ => out is None,
            },
    {
        let mut values = self.values;
        match self.stage {
            Stage::Finished => Some(Ok(values.pop().unwrap())),
            Stage::Failed => Some(Err(self.error.unwrap())),
            _ => None,
        }
    }
}

impl IValue {
    /// Begins the conversion of the native value behind `handle` into a
    /// tagged value. The handle is the decoder's from now on: it is released
    /// on every path.
    pub fn of_c(handle: usize) -> (dec: Decoder)
        ensures
            dec.wf(),
            dec@ == DecoderView::start(handle),
    {
        Decoder::new(handle)
    }
}

} // verus!
