//! Scripted modules: loading one, running it, letting it go.
//!
//! A [`CModule`] owns the handle of a loaded module. Each operation on it is
//! a short conversation with the engine: [`CModule::load`],
//! [`CModule::forward_ts`] and [`CModule::forward_is`] hand out the state of
//! one, which names the calls to make and takes their outcomes.
use vstd::prelude::*;
use vstd::string::StringSliceAdditionalSpecFns;
use crate::decoder::{Decoder, DecoderStage, DecoderView};
use crate::encoder::{Encoder, EncoderStage, EncoderView};
use crate::error::{ExecutionError, ForwardError, LoadError};
use crate::protocol::{request_view, Reply, ReplyView, Request, RequestView};
use crate::text::{c_string, has_nul, to_c_string};
use crate::value::{values_view, IValue, Tensor, Value};

verus! {

/// A module of the engine that was loaded from a file.
///
/// The handle is the module's own from [`CModule::load`] until
/// [`CModule::release`], which takes the module away: nothing can be asked of
/// it afterwards.
#[derive(Debug)]
pub struct CModule {
    handle: usize,
}

/// The handles of a sequence of tensors.
pub open spec fn handles_of(ts: Seq<Tensor>) -> Seq<usize> {
    Seq::new(ts.len(), |i: int| ts[i].handle)
}

/// Where a [`Loading`] stands.
pub enum LoadingView {
    /// The load of the file under this path, a C string, is under way.
    Await(Seq<u8>),
    /// The module is loaded and has this handle.
    Loaded(usize),
    Failed(LoadError),
}

impl LoadingView {
    /// The state in which the load of the file under `path` begins.
    pub open spec fn start(path: Seq<u8>) -> LoadingView {
        if has_nul(path) {
            LoadingView::Failed(LoadError::InvalidPath)
        } else {
            LoadingView::Await(c_string(path))
        }
    }

    /// The call that is under way, if any.
    pub open spec fn request(self) -> Option<RequestView> {
        match self {
            LoadingView::Await(path) => Some(RequestView::Load(path)),
            _ => None,
        }
    }

    /// True when `reply` is an outcome of the call under way.
    pub open spec fn accepts(self, reply: ReplyView) -> bool {
        self is Await && (reply is Module || reply is Failed)
    }

    /// The state after `reply` has come in for the call under way.
    pub open spec fn after(self, reply: ReplyView) -> LoadingView {
        match reply {
            ReplyView::Module(m) => LoadingView::Loaded(m),
            ReplyView::Failed(message) => LoadingView::Failed(LoadError::Native(message)),
            _ => self,
        }
    }
}

/// The load of a module, one call long.
pub struct Loading {
    path: Vec<u8>,
    handle: Option<usize>,
    error: Option<LoadError>,
}

impl View for Loading {
    type V = LoadingView;

    closed spec fn view(&self) -> LoadingView {
        match (self.handle, self.error) {
            (Some(m), _) => LoadingView::Loaded(m),
            (None, Some(e)) => LoadingView::Failed(e),
            (None, None) => LoadingView::Await(self.path@),
        }
    }
}

impl Loading {
    /// The call to make now, or `None` when the load is over.
    pub fn request(&self) -> (req: Option<Request>)
        ensures
            request_view(req) == self@.request(),
    {
        if self.handle.is_none() && self.error.is_none() {
            Some(Request::Load(self.path.clone()))
        } else {
            None
        }
    }

    /// Takes the outcome of the call under way. A reply that is no outcome of
    /// that call is turned away and changes nothing.
    pub fn resume(&mut self, reply: Reply) -> (accepted: bool)
        ensures
            accepted == old(self)@.accepts(reply@),
            final(self)@ == if accepted {
                old(self)@.after(reply@)
            } else {
                old(self)@
            },
    {
        if self.handle.is_some() || self.error.is_some() {
            return false;
        }
        match reply {
            Reply::Module(m) => {
                self.handle = Some(m);
                true
            },
            Reply::Failed(message) => {
                self.error = Some(LoadError::Native(message));
                true
            },
            _ => false,
        }
    }

    /// Ends the load: the module, or the error. `None` while the call is
    /// still to make.
    pub fn finish(self) -> (out: Option<Result<CModule, LoadError>>)
        ensures
            match self@ {
                LoadingView::Loaded(m) => out matches Some(Ok(module)) && module@ == m,
                LoadingView::Failed(e) => out == Some(Err::<CModule, LoadError>(e)),
                LoadingView::Await(_) => out is None,
            },
    {
        match self.handle {
            Some(handle) => Some(Ok(CModule { handle })),
            None => match self.error {
                Some(e) => Some(Err(e)),
                None => None,
            },
        }
    }
}

/// Where a [`TensorCall`] stands.
pub enum TensorCallView {
    /// The forward pass of this module on these tensors is under way.
    Await(usize, Seq<usize>),
    /// The forward pass gave the tensor with this handle.
    Finished(usize),
    Failed(ExecutionError),
}

impl TensorCallView {
    /// The call that is under way, if any.
    pub open spec fn request(self) -> Option<RequestView> {
        match self {
            TensorCallView::Await(module, args) => Some(RequestView::Forward(module, args)),
            _ => None,
        }
    }

    /// True when `reply` is an outcome of the call under way.
    pub open spec fn accepts(self, reply: ReplyView) -> bool {
        self is Await && (reply is Tensor || reply is Failed)
    }

    /// The state after `reply` has come in for the call under way.
    pub open spec fn after(self, reply: ReplyView) -> TensorCallView {
        match reply {
            ReplyView::Tensor(t) => TensorCallView::Finished(t),
            ReplyView::Failed(message) => TensorCallView::Failed(ExecutionError { message }),
            _ => self,
        }
    }
}

/// A forward pass on tensors, one call long.
pub struct TensorCall {
    module: usize,
    args: Vec<usize>,
    result: Option<usize>,
    error: Option<ExecutionError>,
}

impl View for TensorCall {
    type V = TensorCallView;

    closed spec fn view(&self) -> TensorCallView {
        match (self.result, self.error) {
            (Some(t), _) => TensorCallView::Finished(t),
            (None, Some(e)) => TensorCallView::Failed(e),
            (None, None) => TensorCallView::Await(self.module, self.args@),
        }
    }
}

impl TensorCall {
    /// The call to make now, or `None` when the pass is over.
    pub fn request(&self) -> (req: Option<Request>)
        ensures
            request_view(req) == self@.request(),
    {
        if self.result.is_none() && self.error.is_none() {
            Some(Request::Forward(self.module, self.args.clone()))
        } else {
            None
        }
    }

    /// Takes the outcome of the call under way. A reply that is no outcome of
    /// that call is turned away and changes nothing.
    pub fn resume(&mut self, reply: Reply) -> (accepted: bool)
        ensures
            accepted == old(self)@.accepts(reply@),
            final(self)@ == if accepted {
                old(self)@.after(reply@)
            } else {
                old(self)@
            },
    {
        if self.result.is_some() || self.error.is_some() {
            return false;
        }
        match reply {
            Reply::Tensor(t) => {
                self.result = Some(t);
                true
            },
            Reply::Failed(message) => {
                self.error = Some(ExecutionError { message });
                true
            },
            _ => false,
        }
    }

    /// Ends the pass: the tensor it gave, which is the caller's from now on,
    /// or the error. `None` while the call is still to make.
    pub fn finish(self) -> (out: Option<Result<Tensor, ExecutionError>>)
        ensures
            match self@ {
                TensorCallView::Finished(t) => out == Some(
                    Ok::<Tensor, ExecutionError>(Tensor { handle: t }),
                ),
                TensorCallView::Failed(e) => out == Some(Err::<Tensor, ExecutionError>(e)),
                TensorCallView::Await(_, _) => out is None,
            },
    {
        match self.result {
            Some(handle) => Some(Ok(Tensor { handle })),
            None => match self.error {
                Some(e) => Some(Err(e)),
                None => None,
            },
        }
    }
}

/// Where a [`ValueCall`] stands.
pub enum ValueCallStage {
    /// The arguments are being made.
    Encoding(EncoderView),
    /// The forward pass on the arguments with these handles is under way.
    Calling(Seq<usize>),
    /// The pass is over; the arguments that are left are being released, the
    /// last one first.
    Releasing { args: Seq<usize>, outcome: Result<usize, ExecutionError> },
    /// The result is being read.
    Decoding(DecoderView),
    Finished(Value),
    Failed(ForwardError),
}

/// The state of a [`ValueCall`].
pub struct ValueCallView {
    pub module: usize,
    pub stage: ValueCallStage,
}

impl ValueCallView {
    /// The state that follows on the encoder's state `e`.
    pub open spec fn encoding(self, e: EncoderView) -> ValueCallView {
        ValueCallView {
            stage: match e.stage {
                EncoderStage::Finished => ValueCallStage::Calling(e.stack),
                EncoderStage::Failed(error) => ValueCallStage::Failed(
                    ForwardError::Conversion(error),
                ),
                _ => ValueCallStage::Encoding(e),
            },
            ..self
        }
    }

    /// The state that follows on the decoder's state `d`.
    pub open spec fn decoding(self, d: DecoderView) -> ValueCallView {
        ValueCallView {
            stage: match d.stage {
                DecoderStage::Finished => ValueCallStage::Finished(d.values[0]),
                DecoderStage::Failed(error) => ValueCallStage::Failed(
                    ForwardError::Conversion(error),
                ),
                _ => ValueCallStage::Decoding(d),
            },
            ..self
        }
    }

    /// The state in which `args` are left to release after a pass that
    /// ended in `outcome`.
    pub open spec fn releasing(
        self,
        args: Seq<usize>,
        outcome: Result<usize, ExecutionError>,
    ) -> ValueCallView {
        if args.len() > 0 {
            ValueCallView { stage: ValueCallStage::Releasing { args, outcome }, ..self }
        } else {
            match outcome {
                Ok(h) => self.decoding(DecoderView::start(h)),
                Err(e) => ValueCallView {
                    stage: ValueCallStage::Failed(ForwardError::Execution(e)),
                    ..self
                },
            }
        }
    }

    /// The state in which the forward pass of `module` on `values` begins.
    pub open spec fn start(module: usize, values: Seq<Value>) -> ValueCallView {
        ValueCallView { module, stage: ValueCallStage::Calling(Seq::empty()) }.encoding(
            EncoderView::start(values),
        )
    }

    /// The call that is under way, if any.
    pub open spec fn request(self) -> Option<RequestView> {
        match self.stage {
            ValueCallStage::Encoding(e) => e.request(),
            ValueCallStage::Calling(args) => Some(RequestView::ForwardValues(self.module, args)),
            ValueCallStage::Releasing { args, .. } => Some(RequestView::Free(args.last())),
            ValueCallStage::Decoding(d) => d.request(),
            _ => None,
        }
    }

    /// True when `reply` is an outcome of the call under way.
    pub open spec fn accepts(self, reply: ReplyView) -> bool {
        match self.stage {
            ValueCallStage::Encoding(e) => e.accepts(reply),
            ValueCallStage::Calling(_) => reply is Value || reply is Failed,
            ValueCallStage::Releasing { .. } => reply is Done,
            ValueCallStage::Decoding(d) => d.accepts(reply),
            _ => false,
        }
    }

    /// The state after `reply` has come in for the call under way.
    pub open spec fn after(self, reply: ReplyView) -> ValueCallView {
        match self.stage {
            ValueCallStage::Encoding(e) => self.encoding(e.after(reply)),
            ValueCallStage::Calling(args) => match reply {
                ReplyView::Value(h) => self.releasing(args, Ok(h)),
                ReplyView::Failed(message) => self.releasing(
                    args,
                    Err(ExecutionError { message }),
                ),
                _ => self,
            },
            ValueCallStage::Releasing { args, outcome } => self.releasing(
                args.drop_last(),
                outcome,
            ),
            ValueCallStage::Decoding(d) => self.decoding(d.after(reply)),
            _ => self,
        }
    }

    /// True of the states that a call can be in.
    pub open spec fn wf(self) -> bool {
        match self.stage {
            ValueCallStage::Encoding(e) => e.wf() && !(e.stage is Finished || e.stage is Failed),
            ValueCallStage::Releasing { args, .. } => args.len() > 0,
            ValueCallStage::Decoding(d) => d.wf() && !(d.stage is Finished || d.stage is Failed),
            _ => true,
        }
    }
}

/// Every accepted reply keeps the state within [`ValueCallView::wf`].
pub proof fn lemma_value_call_step(s: ValueCallView, reply: ReplyView)
    requires
        s.wf(),
        s.accepts(reply),
    ensures
        s.after(reply).wf(),
{
    match s.stage {
        ValueCallStage::Encoding(e) => {
            crate::encoder::lemma_encoder_step(e, reply);
        },
        ValueCallStage::Calling(args) => {
            if reply is Value {
                crate::decoder::lemma_decoder_start(reply->Value_0);
            }
        },
        ValueCallStage::Releasing { args, outcome } => {
            if outcome is Ok {
                crate::decoder::lemma_decoder_start(outcome->Ok_0);
            }
        },
        ValueCallStage::Decoding(d) => {
            crate::decoder::lemma_decoder_step(d, reply);
        },
        _ => {},
    }
}

/// Where a [`ValueCall`] stands; what the stage holds lies beside it.
#[derive(Clone, Copy)]
enum Stage {
    Encoding,
    Calling,
    Releasing,
    Decoding,
    Finished,
    Failed,
}

/// A forward pass on tagged values: the arguments are made, the pass is
/// run, the arguments are released, and the result is read.
pub struct ValueCall {
    module: usize,
    stage: Stage,
    encoder: Option<Encoder>,
    decoder: Option<Decoder>,
    args: Vec<usize>,
    outcome: Option<Result<usize, ExecutionError>>,
    value: Option<IValue>,
    error: Option<ForwardError>,
}

impl View for ValueCall {
    type V = ValueCallView;

    closed spec fn view(&self) -> ValueCallView {
        ValueCallView {
            module: self.module,
            stage: match self.stage {
                Stage::Encoding => ValueCallStage::Encoding(self.encoder->0@),
                Stage::Calling => ValueCallStage::Calling(self.args@),
                Stage::Releasing => ValueCallStage::Releasing {
                    args: self.args@,
                    outcome: self.outcome->0,
                },
                Stage::Decoding => ValueCallStage::Decoding(self.decoder->0@),
                Stage::Finished => ValueCallStage::Finished(self.value->0@),
                Stage::Failed => ValueCallStage::Failed(self.error->0),
            },
        }
    }
}

impl ValueCall {
    /// True of every call that this module hands out.
    pub closed spec fn wf(&self) -> bool {
        &&& self@.wf()
        &&& match self.stage {
            Stage::Encoding => self.encoder is Some && self.encoder->0.wf(),
            Stage::Calling => true,
            Stage::Releasing => self.outcome is Some,
            Stage::Decoding => self.decoder is Some && self.decoder->0.wf(),
            Stage::Finished => self.value is Some,
            Stage::Failed => self.error is Some,
        }
    }

    /// Goes on from the encoder's state.
    fn encoding(&mut self, enc: Encoder)
        requires
            enc.wf(),
        ensures
            final(self)@ == old(self)@.encoding(enc@),
            final(self).wf(),
    {
        proof {
            enc.lemma_wf();
        }
        if enc.is_done() {
            match enc.finish() {
                Some(Ok(args)) => {
                    self.args = args;
                    self.stage = Stage::Calling;
                },
                Some(Err(e)) => {
                    self.error = Some(ForwardError::Conversion(e));
                    self.stage = Stage::Failed;
                },
                None => {},
            }
        } else {
            self.encoder = Some(enc);
            self.stage = Stage::Encoding;
        }
    }

    /// Goes on from the decoder's state.
    fn decoding(&mut self, dec: Decoder)
        requires
            dec.wf(),
        ensures
            final(self)@ == old(self)@.decoding(dec@),
            final(self).wf(),
    {
        proof {
            dec.lemma_wf();
        }
        if dec.is_done() {
            match dec.finish() {
                Some(Ok(v)) => {
                    self.value = Some(v);
                    self.stage = Stage::Finished;
                },
                Some(Err(e)) => {
                    self.error = Some(ForwardError::Conversion(e));
                    self.stage = Stage::Failed;
                },
                None => {},
            }
        } else {
            self.decoder = Some(dec);
            self.stage = Stage::Decoding;
        }
    }

    /// Goes on releasing the arguments that are left, or past them.
    fn releasing(&mut self, outcome: Result<usize, ExecutionError>)
        ensures
            final(self)@ == old(self)@.releasing(old(self).args@, outcome),
            final(self).wf(),
    {
        if self.args.len() > 0 {
            self.outcome = Some(outcome);
            self.stage = Stage::Releasing;
        } else {
            match outcome {
                Ok(h) => {
                    self.decoding(Decoder::new(h));
                },
                Err(e) => {
                    self.error = Some(ForwardError::Execution(e));
                    self.stage = Stage::Failed;
                },
            }
        }
    }

    /// The call to make now, or `None` when the pass is over.
    pub fn request(&self) -> (req: Option<Request>)
        requires
            self.wf(),
        ensures
            request_view(req) == self@.request(),
    {
        match self.stage {
            Stage::Encoding => match &self.encoder {
                Some(enc) => enc.request(),
                None => None,
            },
            Stage::Calling => Some(Request::ForwardValues(self.module, self.args.clone())),
            Stage::Releasing => Some(Request::Free(self.args[self.args.len() - 1])),
            Stage::Decoding => match &self.decoder {
                Some(dec) => dec.request(),
                None => None,
            },
            Stage::Finished | Stage::Failed => None,
        }
    }

    /// Takes the outcome of the call under way. A reply that is no outcome of
    /// that call is turned away and changes nothing.
    pub fn resume(&mut self, reply: Reply) -> (accepted: bool)
        requires
            old(self).wf(),
        ensures
            final(self).wf(),
            accepted == old(self)@.accepts(reply@),
            final(self)@ == if accepted {
                old(self)@.after(reply@)
            } else {
                old(self)@
            },
    {
        match self.stage {
            Stage::Encoding => {
                let mut enc = self.encoder.take().unwrap();
                let accepted = enc.resume(reply);
                self.encoding(enc);
                accepted
            },
            Stage::Calling => match reply {
                Reply::Value(h) => {
                    self.releasing(Ok(h));
                    true
                },
                Reply::Failed(message) => {
                    self.releasing(Err(ExecutionError { message }));
                    true
                },
                _ => false,
            },
            Stage::Releasing => match reply {
                Reply::Done => {
                    self.args.pop();
                    let outcome = self.outcome.take().unwrap();
                    self.releasing(outcome);
                    true
                },
                _ => false,
            },
            Stage::Decoding => {
                let mut dec = self.decoder.take().unwrap();
                let accepted = dec.resume(reply);
                self.decoding(dec);
                accepted
            },
            Stage::Finished | Stage::Failed => false,
        }
    }

    /// Ends the pass: the value it gave, or the error. `None` while calls
    /// are left to make.
    pub fn finish(self) -> (out: Option<Result<IValue, ForwardError>>)
        requires
            self.wf(),
        ensures
            match self@.stage {
                ValueCallStage::Finished(v) => out matches Some(Ok(value)) && value@ == v,
                ValueCallStage::Failed(e) => out == Some(Err::<IValue, ForwardError>(e)),
                _ => out is None,
            },
    {
        match self.stage {
            Stage::Finished => Some(Ok(self.value.unwrap())),
            Stage::Failed => Some(Err(self.error.unwrap())),
            _ => None,
        }
    }
}

impl View for CModule {
    type V = usize;

    closed spec fn view(&self) -> usize {
        self.handle
    }
}

impl CModule {
    /// Begins to load the module stored in the file under `path`.
    pub fn load(path: &str) -> (loading: Loading)
        ensures
            loading@ == LoadingView::start(path.spec_bytes()),
    {
        match to_c_string(path.as_bytes()) {
            Some(c) => Loading { path: c, handle: None, error: None },
            None => Loading {
                path: Vec::new(),
                handle: None,
                error: Some(LoadError::InvalidPath),
            },
        }
    }

    /// The handle of the module.
    pub fn handle(&self) -> (h: usize)
        ensures
            h == self@,
    {
        self.handle
    }

    /// Begins a forward pass on the tensors `ts`, which stay the caller's.
    pub fn forward_ts(&self, ts: &[Tensor]) -> (call: TensorCall)
        ensures
            call@ == TensorCallView::Await(self@, handles_of(ts@)),
    {
        let mut args: Vec<usize> = Vec::new();
        let mut i: usize = 0;
        while i < ts.len()
            invariant
                i <= ts.len(),
                args@ == handles_of(ts@.subrange(0, i as int)),
            decreases ts.len() - i,
        {
            args.push(ts[i].handle);
            i += 1;
            assert(args@ =~= handles_of(ts@.subrange(0, i as int)));
        }
        assert(ts@.subrange(0, ts.len() as int) =~= ts@);
        TensorCall { module: self.handle, args, result: None, error: None }
    }

    /// Begins a forward pass on the tagged values `ts`.
    pub fn forward_is(&self, ts: &[IValue]) -> (call: ValueCall)
        ensures
            call.wf(),
            call@ == ValueCallView::start(self@, values_view(ts@)),
    {
        let mut call = ValueCall {
            module: self.handle,
            stage: Stage::Calling,
            encoder: None,
            decoder: None,
            args: Vec::new(),
            outcome: None,
            value: None,
            error: None,
        };
        call.encoding(Encoder::new(ts));
        call
    }

    /// Lets the module go: the call that releases it. The module is taken,
    /// so it is released once and nothing is asked of it afterwards.
    pub fn release(self) -> (req: Request)
        ensures
            req@ == RequestView::FreeModule(self@),
    {
        Request::FreeModule(self.handle)
    }
}

} // verus!
