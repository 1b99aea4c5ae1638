//! Building native values from tagged values.
//!
//! A tagged value is first laid out as a script: the constructor calls that
//! build it, children before their tuple. An [`Encoder`] then walks the
//! script one call at a time and keeps the handles it owns on a stack. After
//! a tuple is made its children are released; after a failure everything on
//! the stack is released before the error is given out.
use vstd::prelude::*;
use vstd::slice::slice_to_vec;
use vstd::utf8::*;
use crate::error::ConversionError;
use crate::native::{bool_code, native_of, natives_of, Native};
use crate::protocol::{request_view, Reply, ReplyView, Request, RequestView};
use crate::text::{c_string, contains_nul, has_nul, to_c_string};
use crate::value::{values_view, IValue, Value};

verus! {

/// One constructor call of a script.
enum Op {
    Empty,
    Tensor(usize),
    Double(u64),
    Int(i64),
    Bool(bool),
    /// A string, as the bytes of its text.
    Text(Vec<u8>),
    /// A tuple of the values that the calls before it left, as many as given.
    Tuple(usize),
}

/// An [`Op`] with a sequence in place of the vector.
pub enum OpView {
    Empty,
    Tensor(usize),
    Double(u64),
    Int(i64),
    Bool(bool),
    Text(Seq<u8>),
    Tuple(nat),
}

impl View for Op {
    type V = OpView;

    closed spec fn view(&self) -> OpView {
        match self {
            Op::Empty => OpView::Empty,
            Op::Tensor(t) => OpView::Tensor(*t),
            Op::Double(bits) => OpView::Double(*bits),
            Op::Int(i) => OpView::Int(*i),
            Op::Bool(b) => OpView::Bool(*b),
            Op::Text(bytes) => OpView::Text(bytes@),
            Op::Tuple(n) => OpView::Tuple(*n as nat),
        }
    }
}

impl OpView {
    /// The number of values that the op takes from the stack.
    pub open spec fn arity(self) -> nat {
        match self {
            OpView::Tuple(n) => n,
            _ => 0,
        }
    }

    /// True of every op but a text with a NUL byte, which no call can carry.
    pub open spec fn callable(self) -> bool {
        match self {
            OpView::Text(bytes) => !has_nul(bytes),
            _ => true,
        }
    }
}

/// The views of a sequence of ops.
spec fn ops_view(ops: Seq<Op>) -> Seq<OpView> {
    Seq::new(ops.len(), |i: int| ops[i]@)
}

/// The script that builds `v`: its children's scripts in order, then its own call.
pub open spec fn script_of(v: Value) -> Seq<OpView>
    decreases v,
{
    match v {
        Value::Empty => seq![OpView::Empty],
        Value::Tensor(t) => seq![OpView::Tensor(t)],
        Value::Double(bits) => seq![OpView::Double(bits)],
        Value::Int(i) => seq![OpView::Int(i)],
        Value::Bool(b) => seq![OpView::Bool(b)],
        Value::Text(chars) => seq![OpView::Text(encode_utf8(chars))],
        Value::Tuple(items) => scripts_of(items, items.len()).push(OpView::Tuple(items.len())),
    }
}

/// The scripts of the first `n` of `items`, one after the other.
pub open spec fn scripts_of(items: Seq<Value>, n: nat) -> Seq<OpView>
    decreases items, n,
{
    if n == 0 || n > items.len() {
        Seq::empty()
    } else {
        scripts_of(items, (n - 1) as nat) + script_of(items[n - 1])
    }
}

/// The native values on the stack after `op`, when `terms` were there before
/// it and every call does what it is asked. `None` when a tuple asks for more
/// values than there are.
pub open spec fn apply(op: OpView, terms: Seq<Native>) -> Option<Seq<Native>> {
    match op {
        OpView::Empty => Some(terms.push(Native::Empty)),
        OpView::Tensor(t) => Some(terms.push(Native::Tensor(t))),
        OpView::Double(bits) => Some(terms.push(Native::Double(bits))),
        OpView::Int(i) => Some(terms.push(Native::Int(i))),
        OpView::Bool(b) => Some(terms.push(Native::Bool(b))),
        OpView::Text(bytes) => Some(terms.push(Native::Text(bytes))),
        OpView::Tuple(n) => if n <= terms.len() {
            Some(
                terms.subrange(0, terms.len() - n).push(
                    Native::Tuple(terms.subrange(terms.len() - n, terms.len() as int)),
                ),
            )
        } else {
            None
        },
    }
}

/// The native values on the stack after the first `k` calls of `script`.
pub open spec fn eval(script: Seq<OpView>, k: nat) -> Option<Seq<Native>>
    decreases k,
{
    if k == 0 {
        Some(Seq::empty())
    } else if k > script.len() {
        None
    } else {
        match eval(script, (k - 1) as nat) {
            Some(terms) => apply(script[k - 1], terms),
            None => None,
        }
    }
}

/// The number of values on the stack after the first `k` calls of `script`.
pub open spec fn depth(script: Seq<OpView>, k: nat) -> nat {
    match eval(script, k) {
        Some(terms) => terms.len(),
        None => 0,
    }
}

/// Where an [`Encoder`] stands.
pub enum EncoderStage {
    /// The call of the current op is under way.
    Build,
    /// A tuple was made; `left` of its children are still to be released, and
    /// the release of the topmost is under way.
    Release { made: usize, left: nat },
    /// The conversion has failed; the release of the topmost handle is under way.
    Unwind(ConversionError),
    /// Every call was made; the stack holds the results.
    Finished,
    /// The conversion has failed and nothing is owned any more.
    Failed(ConversionError),
}

/// The state of an [`Encoder`].
pub struct EncoderView {
    pub script: Seq<OpView>,
    /// The index of the current op.
    pub pc: nat,
    /// The handles that the encoder owns, oldest first.
    pub stack: Seq<usize>,
    pub stage: EncoderStage,
}

impl EncoderView {
    /// The state in which `e` has made the conversion fail.
    pub open spec fn fail(self, e: ConversionError) -> EncoderView {
        EncoderView {
            stage: if self.stack.len() == 0 {
                EncoderStage::Failed(e)
            } else {
                EncoderStage::Unwind(e)
            },
            ..self
        }
    }

    /// The state on reaching the current op: done at the end of the script,
    /// failed at a text with a NUL byte, else the op's call.
    pub open spec fn arrive(self) -> EncoderView {
        if self.pc >= self.script.len() {
            EncoderView { stage: EncoderStage::Finished, ..self }
        } else if !self.script[self.pc as int].callable() {
            self.fail(ConversionError::InvalidString)
        } else {
            EncoderView { stage: EncoderStage::Build, ..self }
        }
    }

    /// The state in which the conversion of `values` begins.
    pub open spec fn start(values: Seq<Value>) -> EncoderView {
        EncoderView {
            script: scripts_of(values, values.len()),
            pc: 0,
            stack: Seq::empty(),
            stage: EncoderStage::Build,
        }.arrive()
    }

    /// The state after the current op has left `h` on the stack.
    pub open spec fn advance(self, stack: Seq<usize>) -> EncoderView {
        EncoderView { pc: self.pc + 1, stack, ..self }.arrive()
    }

    /// The call that the current op stands for.
    pub open spec fn call(self) -> RequestView {
        match self.script[self.pc as int] {
            OpView::Empty => RequestView::MakeEmpty,
            OpView::Tensor(t) => RequestView::MakeTensor(t),
            OpView::Double(bits) => RequestView::MakeDouble(bits),
            OpView::Int(i) => RequestView::MakeInt(i),
            OpView::Bool(b) => RequestView::MakeBool(bool_code(b)),
            OpView::Text(bytes) => RequestView::MakeString(c_string(bytes)),
            OpView::Tuple(n) => RequestView::MakeTuple(
                self.stack.subrange(self.stack.len() - n, self.stack.len() as int),
            ),
        }
    }

    /// The call that is under way, if any.
    pub open spec fn request(self) -> Option<RequestView> {
        match self.stage {
            EncoderStage::Build => Some(self.call()),
            EncoderStage::Release { .. } | EncoderStage::Unwind(_) => Some(
                RequestView::Free(self.stack.last()),
            ),
            EncoderStage::Finished | EncoderStage::Failed(_) => None,
        }
    }

    /// True when `reply` is an outcome of the call under way.
    pub open spec fn accepts(self, reply: ReplyView) -> bool {
        match self.stage {
            EncoderStage::Build => reply is Value || reply is Failed,
            EncoderStage::Release { .. } | EncoderStage::Unwind(_) => reply is Done,
            EncoderStage::Finished | EncoderStage::Failed(_) => false,
        }
    }

    /// The state after `reply` has come in for the call under way.
    pub open spec fn after(self, reply: ReplyView) -> EncoderView {
        match (self.stage, reply) {
            (EncoderStage::Build, ReplyView::Value(h)) => {
                if self.script[self.pc as int].arity() > 0 {
                    EncoderView {
                        stage: EncoderStage::Release {
                            made: h,
                            left: self.script[self.pc as int].arity(),
                        },
                        ..self
                    }
                } else {
                    self.advance(self.stack.push(h))
                }
            },
            (EncoderStage::Build, ReplyView::Failed(message)) => self.fail(
                ConversionError::Native(message),
            ),
            (EncoderStage::Release { made, left }, ReplyView::Done) => {
                if left > 1 {
                    EncoderView {
                        stack: self.stack.drop_last(),
                        stage: EncoderStage::Release { made, left: (left - 1) as nat },
                        ..self
                    }
                } else {
                    self.advance(self.stack.drop_last().push(made))
                }
            },
            (EncoderStage::Unwind(e), ReplyView::Done) => EncoderView {
                stack: self.stack.drop_last(),
                ..self
            }.fail(e),
            _ => self,
        }
    }

    /// True of the states that an encoder can be in.
    pub open spec fn wf(self) -> bool {
        &&& self.pc <= self.script.len()
        &&& eval(self.script, self.script.len()) is Some
        &&& match self.stage {
            EncoderStage::Build => {
                &&& self.pc < self.script.len()
                &&& self.script[self.pc as int].callable()
                &&& eval(self.script, self.pc) is Some
                &&& depth(self.script, self.pc) == self.stack.len()
            },
            EncoderStage::Release { made, left } => {
                &&& self.pc < self.script.len()
                &&& 1 <= left <= self.script[self.pc as int].arity()
                &&& eval(self.script, self.pc) is Some
                &&& depth(self.script, self.pc) == self.stack.len() + self.script[self.pc as int].arity()
                    - left
            },
            EncoderStage::Unwind(_) => self.stack.len() > 0,
            EncoderStage::Finished => {
                &&& self.pc == self.script.len()
                &&& depth(self.script, self.pc) == self.stack.len()
            },
            EncoderStage::Failed(_) => self.stack.len() == 0,
        }
    }

    /// The number of replies after which the encoder is surely done.
    pub open spec fn fuel(self) -> nat {
        match self.stage {
            EncoderStage::Build => 2 * (self.script.len() - self.pc) as nat + self.stack.len(),
            EncoderStage::Release { made, left } => (2 * (self.script.len() - self.pc)
                + self.stack.len() - 1) as nat,
            EncoderStage::Unwind(_) => self.stack.len(),
            EncoderStage::Finished | EncoderStage::Failed(_) => 0,
        }
    }
}

/// Every accepted reply keeps the state within [`EncoderView::wf`] and uses
/// up fuel, so that an encoder is done after as many replies as it has fuel.
pub proof fn lemma_encoder_step(s: EncoderView, reply: ReplyView)
    requires
        s.wf(),
        s.accepts(reply),
    ensures
        s.after(reply).wf(),
        s.after(reply).fuel() < s.fuel(),
{
    lemma_encoder_owns(s);
    if s.stage is Build || s.stage is Release {
        lemma_eval_prefix(s.script, s.pc + 1, s.script.len());
    }
}

/// What the stack is known to hold while a call is under way: the children
/// of a tuple that is being made, and a handle to release while releasing.
pub proof fn lemma_encoder_owns(s: EncoderView)
    requires
        s.wf(),
    ensures
        s.stage is Build ==> s.script[s.pc as int].arity() <= s.stack.len(),
        s.stage matches EncoderStage::Release { made, left } ==> left <= s.stack.len(),
        s.stage is Unwind ==> s.stack.len() > 0,
{
    if s.stage is Build || s.stage is Release {
        lemma_eval_prefix(s.script, s.pc + 1, s.script.len());
    }
}

/// The views of a script grow with the script.
proof fn lemma_ops_view_push(ops: Seq<Op>, op: Op)
    ensures
        ops_view(ops.push(op)) == ops_view(ops).push(op@),
{
    assert(ops_view(ops.push(op)) =~= ops_view(ops).push(op@));
}

/// Appends to `script` the calls that build `value`.
fn compile(value: &IValue, script: &mut Vec<Op>)
    ensures
        ops_view(final(script)@) == ops_view(old(script)@) + script_of(value@),
    decreases value,
{
    let ghost before = script@;
    let op = match value {
        IValue::Empty => Op::Empty,
        IValue::Tensor(t) => Op::Tensor(t.handle),
        IValue::Double(bits) => Op::Double(*bits),
        IValue::Int(i) => Op::Int(*i),
        IValue::Bool(b) => Op::Bool(*b),
        IValue::String(s) => Op::Text(slice_to_vec(s.as_str().as_bytes())),
        IValue::Tuple(items) => {
            let ghost inner = value@->Tuple_0;
            let mut i: usize = 0;
            assert(ops_view(before) + Seq::<OpView>::empty() =~= ops_view(before));
            while i < items.len()
                invariant
                    i <= items.len(),
                    *value == IValue::Tuple(*items),
                    inner == values_view(items@),
                    ops_view(script@) == ops_view(before) + scripts_of(inner, i as nat),
                decreases items.len() - i,
            {
                proof {
                    vstd::std_specs::vec::axiom_vec_index_decreases(*items, i as int);
                    assert(decreases_to!(*value => value->Tuple_0));
                }
                compile(&items[i], script);
                i += 1;
            }
            Op::Tuple(items.len())
        },
    };
    proof {
        lemma_ops_view_push(script@, op);
    }
    script.push(op);
    assert(ops_view(script@) =~= ops_view(before) + script_of(value@));
}

/// Where an [`Encoder`] stands; its error lies beside it.
#[derive(Clone, Copy)]
enum Stage {
    Build,
    Release { made: usize, left: usize },
    Unwind,
    Finished,
    Failed,
}

/// The conversion of tagged values into native values, one call at a time.
pub struct Encoder {
    script: Vec<Op>,
    pc: usize,
    stack: Vec<usize>,
    stage: Stage,
    error: Option<ConversionError>,
}

impl View for Encoder {
    type V = EncoderView;

    closed spec fn view(&self) -> EncoderView {
        EncoderView {
            script: ops_view(self.script@),
            pc: self.pc as nat,
            stack: self.stack@,
            stage: match self.stage {
                Stage::Build => EncoderStage::Build,
                Stage::Release { made, left } => EncoderStage::Release { made, left: left as nat },
                Stage::Unwind => EncoderStage::Unwind(self.error->0),
                Stage::Finished => EncoderStage::Finished,
                Stage::Failed => EncoderStage::Failed(self.error->0),
            },
        }
    }
}

impl Encoder {
    /// True of every encoder that this module hands out.
    pub closed spec fn wf(&self) -> bool {
        &&& self@.wf()
        &&& (self.stage is Unwind || self.stage is Failed) ==> self.error is Some
    }

    /// The state of an encoder is one that an encoder can be in.
    pub proof fn lemma_wf(&self)
        requires
            self.wf(),
        ensures
            self@.wf(),
    {
    }

    /// Takes up the op at `pc` with the stack as it is.
    fn arrive(&mut self)
        requires
            old(self).pc <= old(self).script.len(),
            eval(old(self)@.script, old(self)@.script.len()) is Some,
            eval(old(self)@.script, old(self)@.pc) is Some,
            depth(old(self)@.script, old(self)@.pc) == old(self).stack.len(),
        ensures
            final(self)@ == old(self)@.arrive(),
            final(self).wf(),
    {
        if self.pc >= self.script.len() {
            self.stage = Stage::Finished;
        } else {
            let bad = match &self.script[self.pc] {
                Op::Text(bytes) => contains_nul(bytes.as_slice()),
                _ => false,
            };
            if bad {
                self.fail(ConversionError::InvalidString);
            } else {
                self.stage = Stage::Build;
            }
        }
    }

    /// Gives the conversion up for `e`.
    fn fail(&mut self, e: ConversionError)
        ensures
            final(self)@ == old(self)@.fail(e),
            final(self).error == Some(e),
            final(self).stage is Unwind || final(self).stage is Failed,
            final(self).script == old(self).script,
            final(self).pc == old(self).pc,
            final(self).stack == old(self).stack,
    {
        self.stage = if self.stack.len() == 0 {
            Stage::Failed
        } else {
            Stage::Unwind
        };
        self.error = Some(e);
    }

    /// Begins to run `script`.
    fn begin(script: Vec<Op>) -> (enc: Encoder)
        requires
            eval(ops_view(script@), script@.len()) is Some,
        ensures
            enc.wf(),
            enc@ == (EncoderView {
                script: ops_view(script@),
                pc: 0,
                stack: Seq::empty(),
                stage: EncoderStage::Build,
            }).arrive(),
    {
        let mut enc = Encoder { script, pc: 0, stack: Vec::new(), stage: Stage::Build, error: None };
        enc.arrive();
        enc
    }

    /// Begins the conversion of `values`, in order.
    pub fn new(values: &[IValue]) -> (enc: Encoder)
        ensures
            enc.wf(),
            enc@ == EncoderView::start(values_view(values@)),
    {
        let ghost all = values_view(values@);
        let mut script: Vec<Op> = Vec::new();
        let mut i: usize = 0;
        assert(ops_view(script@) =~= scripts_of(all, 0));
        while i < values.len()
            invariant
                i <= values.len(),
                all == values_view(values@),
                ops_view(script@) == scripts_of(all, i as nat),
            decreases values.len() - i,
        {
            compile(&values[i], &mut script);
            i += 1;
        }
        proof {
            lemma_scripts_build(all, all.len());
        }
        Encoder::begin(script)
    }

    /// The call to make now, or `None` when the conversion is over.
    pub fn request(&self) -> (req: Option<Request>)
        requires
            self.wf(),
        ensures
            request_view(req) == self@.request(),
    {
        proof {
            lemma_encoder_owns(self@);
        }
        match self.stage {
            Stage::Build => {
                let call = match &self.script[self.pc] {
                    Op::Empty => Request::MakeEmpty,
                    Op::Tensor(t) => Request::MakeTensor(*t),
                    Op::Double(bits) => Request::MakeDouble(*bits),
                    Op::Int(i) => Request::MakeInt(*i),
                    Op::Bool(b) => Request::MakeBool(
                        if *b {
                            1
                        } else {
                            0
                        },
                    ),
                    Op::Text(bytes) => Request::MakeString(to_c_string(bytes.as_slice()).unwrap()),
                    Op::Tuple(n) => {
                        let start: usize = self.stack.len() - *n;
                        let mut items: Vec<usize> = Vec::new();
                        let mut i: usize = start;
                        while i < self.stack.len()
                            invariant
                                start <= i <= self.stack.len(),
                                items@ == self.stack@.subrange(start as int, i as int),
                            decreases self.stack.len() - i,
                        {
                            items.push(self.stack[i]);
                            i += 1;
                            assert(items@ =~= self.stack@.subrange(start as int, i as int));
                        }
                        Request::MakeTuple(items)
                    },
                };
                Some(call)
            },
            Stage::Release { .. } | Stage::Unwind => Some(
                Request::Free(self.stack[self.stack.len() - 1]),
            ),
            Stage::Finished | Stage::Failed => None,
        }
    }

    /// Takes the outcome of the call under way. A reply that is no outcome of
    /// that call is turned away and changes nothing.
    pub fn resume(&mut self, reply: Reply) -> (accepted: bool)
        requires
            old(self).wf(),
        ensures
            final(self).wf(),
            accepted == old(self)@.accepts(reply@),
            final(self)@ == if accepted {
                old(self)@.after(reply@)
            } else {
                old(self)@
            },
    {
        proof {
            lemma_encoder_owns(self@);
            if self@.accepts(reply@) {
                lemma_encoder_step(self@, reply@);
            }
            if self.pc < self.script.len() {
                lemma_eval_prefix(self@.script, self@.pc + 1, self@.script.len());
            }
        }
        match self.stage {
            Stage::Build => match reply {
                Reply::Value(h) => {
                    let n: usize = match &self.script[self.pc] {
                        Op::Tuple(n) => *n,
                        _ => 0,
                    };
                    if n > 0 {
                        self.stage = Stage::Release { made: h, left: n };
                    } else {
                        self.stack.push(h);
                        self.pc += 1;
                        self.arrive();
                    }
                    true
                },
                Reply::Failed(message) => {
                    self.fail(ConversionError::Native(message));
                    true
                },
                _ => false,
            },
            Stage::Release { made, left } => match reply {
                Reply::Done => {
                    self.stack.pop();
                    if left > 1 {
                        self.stage = Stage::Release { made, left: left - 1 };
                    } else {
                        self.stack.push(made);
                        self.pc += 1;
                        self.arrive();
                    }
                    true
                },
                _ => false,
            },
            Stage::Unwind => match reply {
                Reply::Done => {
                    self.stack.pop();
                    if self.stack.len() == 0 {
                        self.stage = Stage::Failed;
                    }
                    true
                },
                _ => false,
            },
            Stage::Finished | Stage::Failed => false,
        }
    }

    /// True when no call is left to make.
    pub fn is_done(&self) -> (done: bool)
        ensures
            done == (self@.stage is Finished || self@.stage is Failed),
    {
        match self.stage {
            Stage::Finished | Stage::Failed => true,
            _ => false,
        }
    }

    /// Ends the conversion: the handles of the new values, one for each
    /// tagged value and in their order, or the error. `None` while calls are
    /// left to make.
    pub fn finish(self) -> (out: Option<Result<Vec<usize>, ConversionError>>)
        requires
            self.wf(),
        ensures
            match self@.stage {
                EncoderStage::Finished => out matches Some(Ok(handles)) && handles@
                    == self@.stack,
                EncoderStage::Failed(e) => out == Some(Err::<Vec<usize>, ConversionError>(e)),
                _ => out is None,
            },
    {
        match self.stage {
            Stage::Finished => Some(Ok(self.stack)),
            Stage::Failed => Some(Err(self.error.unwrap())),
            _ => None,
        }
    }
}

/// A script that runs to its end runs to every point before it.
pub proof fn lemma_eval_prefix(script: Seq<OpView>, k: nat, n: nat)
    requires
        k <= n,
        eval(script, n) is Some,
    ensures
        eval(script, k) is Some,
    decreases n - k,
{
    if k < n {
        lemma_eval_prefix(script, k + 1, n);
    }
}

/// The first `k` calls of a script do not depend on what follows them.
pub proof fn lemma_eval_append(a: Seq<OpView>, b: Seq<OpView>, k: nat)
    requires
        k <= a.len(),
    ensures
        eval(a + b, k) == eval(a, k),
    decreases k,
{
    if k > 0 {
        lemma_eval_append(a, b, (k - 1) as nat);
    }
}

/// Running `b` after `a` starts from what `a` left.
pub proof fn lemma_eval_concat(a: Seq<OpView>, b: Seq<OpView>, k: nat)
    requires
        k <= b.len(),
        eval(a, a.len()) is Some,
        eval(b, k) is Some,
    ensures
        eval(a + b, a.len() + k) == Some(eval(a, a.len())->0 + eval(b, k)->0),
    decreases k,
{
    let before = eval(a, a.len())->0;
    if k == 0 {
        lemma_eval_append(a, b, a.len());
        assert(before + Seq::<Native>::empty() =~= before);
    } else {
        lemma_eval_prefix(b, (k - 1) as nat, k);
        lemma_eval_concat(a, b, (k - 1) as nat);
        let inner = eval(b, (k - 1) as nat)->0;
        let op = b[k - 1];
        assert((a + b)[a.len() + k - 1] == op);
        let whole = before + inner;
        match op {
            OpView::Tuple(n) => {
                assert(n <= inner.len());
                assert(whole.subrange(whole.len() - n, whole.len() as int) =~= inner.subrange(
                    inner.len() - n,
                    inner.len() as int,
                ));
                assert(whole.subrange(0, whole.len() - n) =~= before + inner.subrange(
                    0,
                    inner.len() - n,
                ));
                assert(apply(op, whole)->0 =~= before + apply(op, inner)->0);
            },
            _ => {
                assert(apply(op, whole)->0 =~= before + apply(op, inner)->0);
            },
        }
    }
}

/// The script of a value leaves the value's native form, and nothing else.
pub proof fn lemma_script_builds(v: Value)
    ensures
        eval(script_of(v), script_of(v).len()) == Some(seq![native_of(v)]),
    decreases v,
{
    let script = script_of(v);
    match v {
        Value::Tuple(items) => {
            let inner = scripts_of(items, items.len());
            lemma_scripts_build(items, items.len());
            lemma_eval_append(inner, seq![OpView::Tuple(items.len())], inner.len());
            assert(script =~= inner + seq![OpView::Tuple(items.len())]);
            let terms = natives_of(items.take(items.len() as int));
            assert(eval(script, inner.len()) == Some(terms));
            assert(terms.subrange(0, 0).push(Native::Tuple(terms.subrange(0, terms.len() as int)))
                =~= seq![native_of(v)]) by {
                assert(terms.subrange(0, terms.len() as int) =~= native_of(v)->Tuple_0);
            }
        },
        _ => {
            assert(eval(script, 0) == Some(Seq::<Native>::empty()));
            assert(Seq::<Native>::empty().push(native_of(v)) =~= seq![native_of(v)]);
        },
    }
}

/// The scripts of the first `n` values leave their native forms, in order.
pub proof fn lemma_scripts_build(items: Seq<Value>, n: nat)
    requires
        n <= items.len(),
    ensures
        eval(scripts_of(items, n), scripts_of(items, n).len()) == Some(
            natives_of(items.take(n as int)),
        ),
    decreases items, n,
{
    if n == 0 {
        assert(natives_of(items.take(0)) =~= Seq::<Native>::empty());
    } else {
        let before = scripts_of(items, (n - 1) as nat);
        let last = script_of(items[n - 1]);
        lemma_scripts_build(items, (n - 1) as nat);
        lemma_script_builds(items[n - 1]);
        lemma_eval_concat(before, last, last.len());
        assert(natives_of(items.take(n - 1)) + seq![native_of(items[n - 1])] =~= natives_of(
            items.take(n as int),
        ));
    }
}

impl IValue {
    /// Begins the conversion of this value into a native value. When the
    /// encoder finishes well, its one handle is that of the new value.
    pub fn to_c(&self) -> (enc: Encoder)
        ensures
            enc.wf(),
            enc@ == EncoderView::start(seq![self@]),
    {
        let mut script: Vec<Op> = Vec::new();
        compile(self, &mut script);
        proof {
            let all = seq![self@];
            assert(scripts_of(all, 0) =~= Seq::<OpView>::empty());
            assert(scripts_of(all, 1) =~= script_of(self@));
            assert(ops_view(script@) =~= scripts_of(all, 1));
            lemma_scripts_build(all, 1);
        }
        Encoder::begin(script)
    }
}

} // verus!
