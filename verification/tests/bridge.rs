use std::collections::{HashMap, HashSet};

use torch_jit::decoder::Decoder;
use torch_jit::encoder::Encoder;
use torch_jit::error::{ConversionError, ExecutionError, ForwardError, LoadError};
use torch_jit::module::{CModule, Loading, TensorCall, ValueCall};
use torch_jit::protocol::{Reply, Request};
use torch_jit::text::{contains_nul, decode_text, to_c_string};
use torch_jit::value::{IValue, Tensor};

/// What the stand-in engine holds behind a value handle.
#[derive(Clone, Debug, PartialEq)]
enum Cell {
    Empty,
    Tensor(usize),
    Double(u64),
    Int(i64),
    Bool(i32),
    Tuple(Vec<Cell>),
    Text(Vec<u8>),
    Other(i32),
}

/// An engine in memory that counts what is alive and fails on request.
struct Engine {
    next: usize,
    values: HashMap<usize, Cell>,
    tensors: HashSet<usize>,
    modules: HashSet<usize>,
    files: Vec<Vec<u8>>,
    calls: usize,
    fail_on: Option<usize>,
    log: Vec<Request>,
}

impl Engine {
    fn new() -> Engine {
        Engine {
            next: 0x1000,
            values: HashMap::new(),
            tensors: HashSet::new(),
            modules: HashSet::new(),
            files: vec![b"model.pt\0".to_vec()],
            calls: 0,
            fail_on: None,
            log: Vec::new(),
        }
    }

    fn fresh(&mut self) -> usize {
        self.next += 8;
        self.next
    }

    fn plant(&mut self, cell: Cell) -> usize {
        let h = self.fresh();
        self.values.insert(h, cell);
        h
    }

    fn tensor(&mut self) -> usize {
        let t = self.fresh();
        self.tensors.insert(t);
        t
    }

    fn cell(&self, h: usize) -> Cell {
        self.values.get(&h).expect("the value handle is alive").clone()
    }

    fn make(&mut self, cell: Cell) -> Reply {
        Reply::Value(self.plant(cell))
    }

    fn perform(&mut self, req: Request) -> Reply {
        self.calls += 1;
        let number = self.calls;
        let releases = matches!(req, Request::Free(_) | Request::FreeTensor(_) | Request::FreeModule(_));
        let reply = if self.fail_on == Some(number) && !releases {
            Reply::Failed(format!("call {} failed", number))
        } else {
            self.answer(&req)
        };
        self.log.push(req);
        reply
    }

    fn answer(&mut self, req: &Request) -> Reply {
        match req {
            Request::MakeEmpty => self.make(Cell::Empty),
            Request::MakeTensor(t) => {
                assert!(self.tensors.contains(t), "the tensor handle is alive");
                self.make(Cell::Tensor(*t))
            }
            Request::MakeDouble(bits) => self.make(Cell::Double(*bits)),
            Request::MakeInt(i) => self.make(Cell::Int(*i)),
            Request::MakeBool(code) => self.make(Cell::Bool(if *code != 0 { 1 } else { 0 })),
            Request::MakeString(c) => {
                assert_eq!(c.last(), Some(&0u8), "a C string ends in NUL");
                let end = c.iter().position(|b| *b == 0).unwrap();
                self.make(Cell::Text(c[..end].to_vec()))
            }
            Request::MakeTuple(items) => {
                let cells: Vec<Cell> = items.iter().map(|h| self.cell(*h)).collect();
                self.make(Cell::Tuple(cells))
            }
            Request::Tag(h) => Reply::Tag(match self.cell(*h) {
                Cell::Empty => 0,
                Cell::Tensor(_) => 1,
                Cell::Double(_) => 2,
                Cell::Int(_) => 3,
                Cell::Bool(_) => 4,
                Cell::Tuple(_) => 5,
                Cell::Text(_) => 9,
                Cell::Other(tag) => tag,
            }),
            Request::ToTensor(h) => match self.cell(*h) {
                Cell::Tensor(_) => Reply::Tensor(self.tensor()),
                _ => Reply::Failed("not a tensor".to_string()),
            },
            Request::ToDouble(h) => match self.cell(*h) {
                Cell::Double(bits) => Reply::Double(bits),
                _ => Reply::Failed("not a double".to_string()),
            },
            Request::ToInt(h) => match self.cell(*h) {
                Cell::Int(i) => Reply::Int(i),
                _ => Reply::Failed("not an int".to_string()),
            },
            Request::ToBool(h) => match self.cell(*h) {
                Cell::Bool(code) => Reply::Bool(code),
                _ => Reply::Failed("not a bool".to_string()),
            },
            Request::TupleLength(h) => match self.cell(*h) {
                Cell::Tuple(items) => Reply::Length(items.len()),
                _ => Reply::Failed("not a tuple".to_string()),
            },
            Request::ToTuple(h, n) => match self.cell(*h) {
                Cell::Tuple(items) if items.len() == *n => {
                    Reply::Values(items.into_iter().map(|c| self.plant(c)).collect())
                }
                _ => Reply::Failed("unexpected tuple size".to_string()),
            },
            Request::ToString(h) => match self.cell(*h) {
                Cell::Text(bytes) => Reply::Bytes(bytes),
                _ => Reply::Failed("not a string".to_string()),
            },
            Request::Free(h) => {
                assert!(self.values.remove(h).is_some(), "a value is released once");
                Reply::Done
            }
            Request::FreeTensor(t) => {
                assert!(self.tensors.remove(t), "a tensor is released once");
                Reply::Done
            }
            Request::Load(path) => {
                if self.files.contains(path) {
                    let m = self.fresh();
                    self.modules.insert(m);
                    Reply::Module(m)
                } else {
                    Reply::Failed("no such file".to_string())
                }
            }
            Request::Forward(m, args) => {
                assert!(self.modules.contains(m), "the module is alive");
                for t in args {
                    assert!(self.tensors.contains(t), "the tensor handle is alive");
                }
                Reply::Tensor(self.tensor())
            }
            Request::ForwardValues(m, args) => {
                assert!(self.modules.contains(m), "the module is alive");
                let cells: Vec<Cell> = args.iter().map(|h| self.cell(*h)).collect();
                self.make(Cell::Tuple(cells))
            }
            Request::FreeModule(m) => {
                assert!(self.modules.remove(m), "a module is released once");
                Reply::Done
            }
        }
    }
}

trait Machine {
    fn request(&self) -> Option<Request>;
    fn resume(&mut self, reply: Reply) -> bool;
}

impl Machine for Encoder {
    fn request(&self) -> Option<Request> {
        Encoder::request(self)
    }
    fn resume(&mut self, reply: Reply) -> bool {
        Encoder::resume(self, reply)
    }
}

impl Machine for Decoder {
    fn request(&self) -> Option<Request> {
        Decoder::request(self)
    }
    fn resume(&mut self, reply: Reply) -> bool {
        Decoder::resume(self, reply)
    }
}

impl Machine for Loading {
    fn request(&self) -> Option<Request> {
        Loading::request(self)
    }
    fn resume(&mut self, reply: Reply) -> bool {
        Loading::resume(self, reply)
    }
}

impl Machine for TensorCall {
    fn request(&self) -> Option<Request> {
        TensorCall::request(self)
    }
    fn resume(&mut self, reply: Reply) -> bool {
        TensorCall::resume(self, reply)
    }
}

impl Machine for ValueCall {
    fn request(&self) -> Option<Request> {
        ValueCall::request(self)
    }
    fn resume(&mut self, reply: Reply) -> bool {
        ValueCall::resume(self, reply)
    }
}

fn drive<M: Machine>(engine: &mut Engine, machine: &mut M) {
    while let Some(req) = machine.request() {
        let reply = engine.perform(req);
        assert!(machine.resume(reply), "the engine's reply is taken");
    }
}

fn to_native(engine: &mut Engine, value: &IValue) -> Result<usize, ConversionError> {
    let mut enc = value.to_c();
    drive(engine, &mut enc);
    let handles = enc.finish().expect("the encoder is done")?;
    assert_eq!(handles.len(), 1);
    Ok(handles[0])
}

fn from_native(engine: &mut Engine, handle: usize) -> Result<IValue, ConversionError> {
    let mut dec = IValue::of_c(handle);
    drive(engine, &mut dec);
    dec.finish().expect("the decoder is done")
}

fn round_trip(value: &IValue) -> IValue {
    let mut engine = Engine::new();
    let handle = to_native(&mut engine, value).unwrap();
    assert_eq!(engine.values.len(), 1);
    let back = from_native(&mut engine, handle).unwrap();
    assert!(engine.values.is_empty());
    back
}

fn load(engine: &mut Engine, path: &str) -> Result<CModule, LoadError> {
    let mut loading = CModule::load(path);
    drive(engine, &mut loading);
    loading.finish().expect("the load is done")
}

fn text(s: &str) -> IValue {
    IValue::String(s.to_string())
}

#[test]
fn ivalue() {
    let ivalue = IValue::Tuple(vec![IValue::Int(42), IValue::Double(3.1415f64.to_bits())]);
    let mut engine = Engine::new();
    let handle = to_native(&mut engine, &ivalue).unwrap();
    let ivalue2 = from_native(&mut engine, handle).unwrap();
    assert_eq!(format!("{:?}", ivalue), format!("{:?}", ivalue2));
}

#[test]
fn nested_tuple_round_trips_exactly() {
    let value = IValue::Tuple(vec![IValue::Int(42), IValue::Double(3.1415f64.to_bits())]);
    let back = round_trip(&value);
    assert_eq!(back, value);
    match back {
        IValue::Tuple(items) => {
            assert_eq!(items[0], IValue::Int(42));
            match items[1] {
                IValue::Double(bits) => assert_eq!(f64::from_bits(bits), 3.1415),
                _ => panic!("the second item is a double"),
            }
        }
        _ => panic!("a tuple comes back as a tuple"),
    }
}

#[test]
fn deep_values_round_trip() {
    let value = IValue::Tuple(vec![
        IValue::Empty,
        IValue::Tuple(vec![
            IValue::Bool(true),
            IValue::Tuple(vec![]),
            IValue::Tuple(vec![text("inner"), IValue::Int(-7)]),
        ]),
        IValue::Int(i64::MIN),
        IValue::Double(f64::NAN.to_bits()),
        text(""),
    ]);
    assert_eq!(round_trip(&value), value);
}

#[test]
fn every_leaf_round_trips() {
    for value in [
        IValue::Empty,
        IValue::Int(0),
        IValue::Int(i64::MAX),
        IValue::Double(0f64.to_bits()),
        IValue::Double((-0.5f64).to_bits()),
        IValue::Bool(true),
        IValue::Bool(false),
        text("plain"),
    ] {
        assert_eq!(round_trip(&value), value);
    }
}

#[test]
fn empty_tuple_round_trips() {
    let mut engine = Engine::new();
    let handle = to_native(&mut engine, &IValue::Tuple(vec![])).unwrap();
    assert_eq!(engine.cell(handle), Cell::Tuple(vec![]));
    assert_eq!(engine.log, vec![Request::MakeTuple(vec![])]);
    let back = from_native(&mut engine, handle).unwrap();
    assert_eq!(back, IValue::Tuple(vec![]));
    assert!(engine.values.is_empty());
}

#[test]
fn string_round_trip_keeps_the_bytes() {
    let s = "gr\u{fc}\u{df}e, \u{4e16}\u{754c} \u{1f980}";
    let mut engine = Engine::new();
    let handle = to_native(&mut engine, &text(s)).unwrap();
    assert_eq!(engine.cell(handle), Cell::Text(s.as_bytes().to_vec()));
    let mut c = s.as_bytes().to_vec();
    c.push(0);
    assert_eq!(engine.log, vec![Request::MakeString(c)]);
    assert_eq!(from_native(&mut engine, handle).unwrap(), text(s));
}

#[test]
fn string_with_nul_is_invalid() {
    let mut engine = Engine::new();
    let err = to_native(&mut engine, &text("ab\0cd")).unwrap_err();
    assert_eq!(err, ConversionError::InvalidString);
    assert_eq!(engine.calls, 0);
    assert!(engine.values.is_empty());
}

#[test]
fn bool_is_encoded_as_zero_or_one() {
    let mut engine = Engine::new();
    let t = to_native(&mut engine, &IValue::Bool(true)).unwrap();
    let f = to_native(&mut engine, &IValue::Bool(false)).unwrap();
    assert_eq!(engine.log, vec![Request::MakeBool(1), Request::MakeBool(0)]);
    assert_eq!(from_native(&mut engine, t).unwrap(), IValue::Bool(true));
    assert_eq!(from_native(&mut engine, f).unwrap(), IValue::Bool(false));
}

#[test]
fn negative_bool_is_an_error() {
    let mut engine = Engine::new();
    let h = engine.plant(Cell::Bool(-1));
    let err = from_native(&mut engine, h).unwrap_err();
    assert_eq!(err, ConversionError::UnexpectedBoolEncoding(-1));
    assert!(engine.values.is_empty());
    assert_eq!(engine.log, vec![Request::Tag(h), Request::ToBool(h), Request::Free(h)]);
}

#[test]
fn any_positive_bool_reads_as_true() {
    let mut engine = Engine::new();
    let h = engine.plant(Cell::Bool(2));
    assert_eq!(from_native(&mut engine, h).unwrap(), IValue::Bool(true));
}

#[test]
fn calls_of_a_tuple_come_in_order() {
    let value = IValue::Tuple(vec![IValue::Int(42), IValue::Double(3.1415f64.to_bits())]);
    let mut engine = Engine::new();
    let handle = to_native(&mut engine, &value).unwrap();
    let (a, b) = (0x1008, 0x1010);
    assert_eq!(handle, 0x1018);
    assert_eq!(
        engine.log,
        vec![
            Request::MakeInt(42),
            Request::MakeDouble(3.1415f64.to_bits()),
            Request::MakeTuple(vec![a, b]),
            Request::Free(b),
            Request::Free(a),
        ]
    );
    assert_eq!(engine.values.len(), 1);
    assert_eq!(
        engine.cell(handle),
        Cell::Tuple(vec![Cell::Int(42), Cell::Double(3.1415f64.to_bits())])
    );
}

#[test]
fn reads_of_a_tuple_come_in_order() {
    let mut engine = Engine::new();
    let h = engine.plant(Cell::Tuple(vec![Cell::Int(1), Cell::Empty]));
    let back = from_native(&mut engine, h).unwrap();
    assert_eq!(back, IValue::Tuple(vec![IValue::Int(1), IValue::Empty]));
    let (a, b) = (h + 8, h + 16);
    assert_eq!(
        engine.log,
        vec![
            Request::Tag(h),
            Request::TupleLength(h),
            Request::ToTuple(h, 2),
            Request::Tag(a),
            Request::ToInt(a),
            Request::Free(a),
            Request::Tag(b),
            Request::Free(b),
            Request::Free(h),
        ]
    );
}

#[test]
fn failed_element_leaves_no_handle() {
    let value = IValue::Tuple(vec![
        IValue::Int(1),
        IValue::Tuple(vec![IValue::Int(2), IValue::Tuple(vec![IValue::Int(3)]), text("a\0b")]),
        IValue::Int(4),
    ]);
    let mut engine = Engine::new();
    let err = to_native(&mut engine, &value).unwrap_err();
    assert_eq!(err, ConversionError::InvalidString);
    assert!(engine.values.is_empty());
    let made = engine.log.iter().filter(|r| !matches!(r, Request::Free(_))).count();
    let freed = engine.log.iter().filter(|r| matches!(r, Request::Free(_))).count();
    assert_eq!(made, 4);
    assert_eq!(freed, 4);
}

#[test]
fn failed_call_leaves_no_handle() {
    let value = IValue::Tuple(vec![
        IValue::Int(1),
        IValue::Tuple(vec![IValue::Int(2), text("x")]),
        IValue::Bool(true),
    ]);
    for k in 1..=8 {
        let mut engine = Engine::new();
        engine.fail_on = Some(k);
        let out = to_native(&mut engine, &value);
        if out.is_ok() {
            assert_eq!(engine.values.len(), 1);
        } else {
            assert_eq!(out, Err(ConversionError::Native(format!("call {} failed", k))));
            assert!(engine.values.is_empty(), "nothing is left after call {} failed", k);
        }
    }
}

#[test]
fn failed_tuple_call_releases_the_children() {
    let value = IValue::Tuple(vec![IValue::Int(1), IValue::Int(2)]);
    let mut engine = Engine::new();
    engine.fail_on = Some(3);
    let err = to_native(&mut engine, &value).unwrap_err();
    assert_eq!(err, ConversionError::Native("call 3 failed".to_string()));
    assert!(engine.values.is_empty());
    assert_eq!(engine.log.len(), 5);
}

#[test]
fn unknown_tag_is_an_error() {
    for tag in [6, 7, 8, 10, 12, 13, 14, -1, 99] {
        let mut engine = Engine::new();
        let h = engine.plant(Cell::Other(tag));
        let err = from_native(&mut engine, h).unwrap_err();
        assert_eq!(err, ConversionError::UnrecognizedTag(tag));
        assert!(engine.values.is_empty());
    }
}

#[test]
fn bytes_that_are_no_text_are_an_error() {
    let mut engine = Engine::new();
    let h = engine.plant(Cell::Tuple(vec![Cell::Int(5), Cell::Text(vec![0x66, 0xff, 0x6f])]));
    let err = from_native(&mut engine, h).unwrap_err();
    assert_eq!(err, ConversionError::UndecodableStringBytes);
    assert!(engine.values.is_empty());
}

#[test]
fn failed_read_releases_what_is_left() {
    let cell = Cell::Tuple(vec![
        Cell::Tensor(1),
        Cell::Tuple(vec![Cell::Tensor(2), Cell::Other(77), Cell::Int(3)]),
        Cell::Int(4),
    ]);
    let mut engine = Engine::new();
    let h = engine.plant(cell);
    let err = from_native(&mut engine, h).unwrap_err();
    assert_eq!(err, ConversionError::UnrecognizedTag(77));
    assert!(engine.values.is_empty());
    assert!(engine.tensors.is_empty());
}

#[test]
fn failed_read_call_releases_what_is_left() {
    let cell = Cell::Tuple(vec![
        Cell::Tensor(1),
        Cell::Tuple(vec![Cell::Text(b"t".to_vec()), Cell::Bool(1)]),
        Cell::Double(9),
    ]);
    let mut finished = 0;
    for k in 1..=40 {
        let mut engine = Engine::new();
        let h = engine.plant(cell.clone());
        engine.fail_on = Some(k);
        match from_native(&mut engine, h) {
            Ok(v) => {
                finished += 1;
                assert_eq!(engine.tensors.len(), 1);
                match v {
                    IValue::Tuple(items) => assert_eq!(items.len(), 3),
                    _ => panic!("a tuple comes back as a tuple"),
                }
            }
            Err(e) => {
                assert_eq!(e, ConversionError::Native(format!("call {} failed", k)));
                assert!(engine.tensors.is_empty(), "no tensor is left after call {} failed", k);
            }
        }
        assert!(engine.values.is_empty(), "no value is left after call {} failed", k);
    }
    assert!(finished > 0 && finished < 40);
}

#[test]
fn tensor_comes_back_under_a_new_handle() {
    let mut engine = Engine::new();
    let t = engine.tensor();
    let value = IValue::Tuple(vec![IValue::Tensor(Tensor { handle: t })]);
    let handle = to_native(&mut engine, &value).unwrap();
    assert_eq!(engine.log[0], Request::MakeTensor(t));
    assert_eq!(engine.tensors.len(), 1);
    let back = from_native(&mut engine, handle).unwrap();
    match back {
        IValue::Tuple(items) => match &items[0] {
            IValue::Tensor(new) => {
                assert!(new.handle != t);
                assert!(engine.tensors.contains(&new.handle));
            }
            _ => panic!("a tensor comes back as a tensor"),
        },
        _ => panic!("a tuple comes back as a tuple"),
    }
    assert_eq!(engine.tensors.len(), 2);
    assert!(engine.values.is_empty());
}

#[test]
fn misfit_reply_changes_nothing() {
    let mut enc = IValue::Int(5).to_c();
    assert!(!enc.resume(Reply::Done));
    assert!(!enc.resume(Reply::Tag(3)));
    assert_eq!(enc.request(), Some(Request::MakeInt(5)));
    assert!(!enc.is_done());
    assert!(enc.resume(Reply::Value(64)));
    assert!(enc.is_done());
    assert!(!enc.resume(Reply::Value(72)));
    assert_eq!(enc.finish(), Some(Ok(vec![64])));

    let mut dec = IValue::of_c(64);
    assert!(!dec.resume(Reply::Done));
    assert!(!dec.resume(Reply::Int(1)));
    assert_eq!(dec.request(), Some(Request::Tag(64)));
    assert!(dec.resume(Reply::Tag(5)));
    assert!(dec.resume(Reply::Length(2)));
    assert!(!dec.resume(Reply::Values(vec![8])));
    assert_eq!(dec.request(), Some(Request::ToTuple(64, 2)));
    assert!(!dec.is_done());
}

#[test]
fn finish_before_the_end_gives_nothing() {
    let enc = IValue::Int(5).to_c();
    assert_eq!(enc.finish(), None);
    let dec = IValue::of_c(8);
    assert_eq!(dec.finish(), None);
    let module = load(&mut Engine::new(), "model.pt").unwrap();
    assert_eq!(module.forward_ts(&[]).finish(), None);
    assert_eq!(module.forward_is(&[]).finish(), None);
    assert!(CModule::load("model.pt").finish().is_none());
}

#[test]
fn encoder_of_many_values_keeps_their_order() {
    let values = vec![IValue::Int(1), IValue::Tuple(vec![IValue::Int(2)]), IValue::Int(3)];
    let mut engine = Engine::new();
    let mut enc = Encoder::new(&values);
    drive(&mut engine, &mut enc);
    let handles = enc.finish().unwrap().unwrap();
    assert_eq!(handles.len(), 3);
    assert_eq!(engine.cell(handles[0]), Cell::Int(1));
    assert_eq!(engine.cell(handles[1]), Cell::Tuple(vec![Cell::Int(2)]));
    assert_eq!(engine.cell(handles[2]), Cell::Int(3));
    assert_eq!(engine.values.len(), 3);
}

#[test]
fn c_string_of_bytes() {
    assert_eq!(to_c_string(b"abc"), Some(vec![0x61, 0x62, 0x63, 0]));
    assert_eq!(to_c_string(b""), Some(vec![0]));
    assert_eq!(to_c_string(b"a\0"), None);
    assert_eq!(to_c_string(b"\0"), None);
    assert!(contains_nul(b"a\0b"));
    assert!(!contains_nul(b"ab"));
    assert!(!contains_nul(b""));
}

#[test]
fn text_of_bytes() {
    assert_eq!(decode_text(b"abc".to_vec()), Some("abc".to_string()));
    assert_eq!(decode_text(vec![0xe4, 0xb8, 0x96]), Some("\u{4e16}".to_string()));
    assert_eq!(decode_text(vec![]), Some(String::new()));
    assert_eq!(decode_text(vec![0xc0, 0x80]), None);
    assert_eq!(decode_text(vec![0xed, 0xa0, 0x80]), None);
    assert_eq!(decode_text(vec![0xe4, 0xb8]), None);
}

#[test]
fn load_gives_a_module() {
    let mut engine = Engine::new();
    let module = load(&mut engine, "model.pt").unwrap();
    assert_eq!(engine.log, vec![Request::Load(b"model.pt\0".to_vec())]);
    assert!(engine.modules.contains(&module.handle()));
    let release = module.release();
    assert!(matches!(release, Request::FreeModule(_)));
    assert_eq!(engine.perform(release), Reply::Done);
    assert!(engine.modules.is_empty());
}

#[test]
fn load_of_a_missing_file_fails() {
    let mut engine = Engine::new();
    let err = load(&mut engine, "missing.pt").unwrap_err();
    assert_eq!(err, LoadError::Native("no such file".to_string()));
    assert_eq!(engine.calls, 1);
    assert!(engine.modules.is_empty());
}

#[test]
fn load_of_a_path_with_nul_fails() {
    let mut engine = Engine::new();
    let err = load(&mut engine, "model\0.pt").unwrap_err();
    assert_eq!(err, LoadError::InvalidPath);
    assert_eq!(engine.calls, 0);
}

#[test]
fn loading_takes_one_reply() {
    let mut loading = CModule::load("m");
    assert_eq!(loading.request(), Some(Request::Load(vec![0x6d, 0])));
    assert!(!loading.resume(Reply::Value(8)));
    assert!(loading.resume(Reply::Module(8)));
    assert!(!loading.resume(Reply::Module(16)));
    assert_eq!(loading.request(), None);
    assert_eq!(loading.finish().unwrap().unwrap().handle(), 8);
}

#[test]
fn forward_ts_passes_the_tensors_in_order() {
    let mut engine = Engine::new();
    let module = load(&mut engine, "model.pt").unwrap();
    let (a, b) = (engine.tensor(), engine.tensor());
    let inputs = [Tensor { handle: b }, Tensor { handle: a }];
    let mut call = module.forward_ts(&inputs);
    assert_eq!(call.request(), Some(Request::Forward(module.handle(), vec![b, a])));
    drive(&mut engine, &mut call);
    let out = call.finish().unwrap().unwrap();
    assert!(engine.tensors.contains(&out.handle));
    assert!(engine.tensors.contains(&a) && engine.tensors.contains(&b));
    assert_eq!(engine.tensors.len(), 3);
}

#[test]
fn forward_ts_reports_the_engine_failure() {
    let mut engine = Engine::new();
    let module = load(&mut engine, "model.pt").unwrap();
    let a = engine.tensor();
    engine.fail_on = Some(2);
    let mut call = module.forward_ts(&[Tensor { handle: a }]);
    drive(&mut engine, &mut call);
    assert_eq!(
        call.finish(),
        Some(Err(ExecutionError { message: "call 2 failed".to_string() }))
    );
    assert_eq!(engine.tensors.len(), 1);
}

#[test]
fn forward_is_gives_the_result_and_releases_the_arguments() {
    let mut engine = Engine::new();
    let module = load(&mut engine, "model.pt").unwrap();
    let inputs = [IValue::Int(7), IValue::Tuple(vec![text("x"), IValue::Bool(false)])];
    for _ in 0..3 {
        let mut call = module.forward_is(&inputs);
        drive(&mut engine, &mut call);
        let out = call.finish().unwrap().unwrap();
        assert_eq!(
            out,
            IValue::Tuple(vec![
                IValue::Int(7),
                IValue::Tuple(vec![text("x"), IValue::Bool(false)]),
            ])
        );
        assert!(engine.values.is_empty());
    }
    assert!(engine.modules.contains(&module.handle()));
}

#[test]
fn forward_is_passes_the_arguments_in_one_call() {
    let mut engine = Engine::new();
    let module = load(&mut engine, "model.pt").unwrap();
    let inputs = [IValue::Int(7), IValue::Int(8)];
    let mut call = module.forward_is(&inputs);
    drive(&mut engine, &mut call);
    let (a, b) = (0x1010, 0x1018);
    assert_eq!(
        engine.log[1..6],
        [
            Request::MakeInt(7),
            Request::MakeInt(8),
            Request::ForwardValues(module.handle(), vec![a, b]),
            Request::Free(b),
            Request::Free(a),
        ]
    );
}

#[test]
fn forward_is_without_arguments() {
    let mut engine = Engine::new();
    let module = load(&mut engine, "model.pt").unwrap();
    let mut call = module.forward_is(&[]);
    assert_eq!(call.request(), Some(Request::ForwardValues(module.handle(), vec![])));
    drive(&mut engine, &mut call);
    assert_eq!(call.finish(), Some(Ok(IValue::Tuple(vec![]))));
    assert!(engine.values.is_empty());
}

#[test]
fn forward_is_releases_the_arguments_after_a_failure() {
    let inputs = [IValue::Int(7), IValue::Tuple(vec![IValue::Int(8)]), IValue::Bool(true)];
    for k in 2..=30 {
        let mut engine = Engine::new();
        let module = load(&mut engine, "model.pt").unwrap();
        engine.fail_on = Some(k);
        let mut call = module.forward_is(&inputs);
        drive(&mut engine, &mut call);
        let out = call.finish().unwrap();
        let message = format!("call {} failed", k);
        if k <= 4 || k == 6 {
            assert_eq!(out, Err(ForwardError::Conversion(ConversionError::Native(message))));
        } else if k == 7 {
            assert_eq!(out, Err(ForwardError::Execution(ExecutionError { message })));
        } else if let Err(e) = out {
            assert_eq!(e, ForwardError::Conversion(ConversionError::Native(message)));
        }
        assert!(engine.values.is_empty(), "no value is left after call {} failed", k);
    }
}

#[test]
fn forward_is_with_an_invalid_argument() {
    let mut engine = Engine::new();
    let module = load(&mut engine, "model.pt").unwrap();
    let inputs = [IValue::Int(7), text("\0")];
    let mut call = module.forward_is(&inputs);
    drive(&mut engine, &mut call);
    assert_eq!(
        call.finish(),
        Some(Err(ForwardError::Conversion(ConversionError::InvalidString)))
    );
    assert!(engine.values.is_empty());
    assert!(!engine.log.iter().any(|r| matches!(r, Request::ForwardValues(_, _))));
}

#[test]
fn forward_is_with_a_result_that_cannot_be_read() {
    let mut engine = Engine::new();
    let module = load(&mut engine, "model.pt").unwrap();
    let t = engine.tensor();
    let mut call = module.forward_is(&[IValue::Tensor(Tensor { handle: t })]);
    while let Some(req) = call.request() {
        let reply = match req {
            Request::ForwardValues(_, _) => Reply::Value(engine.plant(Cell::Other(13))),
            other => engine.perform(other),
        };
        assert!(call.resume(reply));
    }
    assert_eq!(
        call.finish(),
        Some(Err(ForwardError::Conversion(ConversionError::UnrecognizedTag(13))))
    );
    assert!(engine.values.is_empty());
    assert_eq!(engine.tensors.len(), 1);
}

fn nodes(value: &IValue) -> usize {
    match value {
        IValue::Tuple(items) => 1 + items.iter().map(nodes).sum::<usize>(),
        _ => 1,
    }
}

#[test]
fn conversions_take_a_bounded_number_of_calls() {
    let value = IValue::Tuple(vec![
        IValue::Empty,
        IValue::Tuple(vec![IValue::Int(1), IValue::Tuple(vec![]), text("t")]),
        IValue::Tuple(vec![IValue::Tuple(vec![IValue::Bool(true), IValue::Double(7)])]),
    ]);
    let n = nodes(&value);
    assert_eq!(n, 10);
    let mut engine = Engine::new();
    let handle = to_native(&mut engine, &value).unwrap();
    let out = engine.calls;
    assert_eq!(out, 2 * n - 1);
    assert_eq!(from_native(&mut engine, handle).unwrap(), value);
    let back = engine.calls - out;
    assert!(back <= 4 * n);
    assert_eq!(back, 34);
}

#[test]
fn encoder_without_values_is_done_at_once() {
    let enc = Encoder::new(&[]);
    assert!(enc.is_done());
    assert_eq!(enc.request(), None);
    assert_eq!(enc.finish(), Some(Ok(vec![])));
}

#[test]
fn decoder_is_done_after_the_release() {
    let mut dec = Decoder::new(24);
    assert!(!dec.is_done());
    assert!(dec.resume(Reply::Tag(3)));
    assert_eq!(dec.request(), Some(Request::ToInt(24)));
    assert!(dec.resume(Reply::Int(-9)));
    assert_eq!(dec.request(), Some(Request::Free(24)));
    assert!(!dec.is_done());
    assert!(dec.resume(Reply::Done));
    assert!(dec.is_done());
    assert_eq!(dec.request(), None);
    assert_eq!(dec.finish(), Some(Ok(IValue::Int(-9))));
}

#[test]
fn failed_read_of_a_leaf_releases_it() {
    let mut dec = IValue::of_c(40);
    assert!(dec.resume(Reply::Tag(2)));
    assert!(dec.resume(Reply::Failed("no double".to_string())));
    assert_eq!(dec.request(), Some(Request::Free(40)));
    assert!(!dec.resume(Reply::Failed("again".to_string())));
    assert!(dec.resume(Reply::Done));
    assert_eq!(dec.finish(), Some(Err(ConversionError::Native("no double".to_string()))));
}
