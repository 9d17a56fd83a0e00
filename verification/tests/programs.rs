//! Programs, compiled and run.

use std::rc::Rc;
use wren::bytecode::{Chunk, Op};
use wren::compiler::literals::make_literals;
use wren::compiler::words::tokenize;
use wren::compiler::{compile, CompileError};
use wren::corelib::bindings::MAX_PRIMITIVES;
use wren::corelib::install::{install_random, RANDOM_PRIMITIVES};
use wren::corelib::perform::perform;
use wren::corelib::primitive::Primitive;
use wren::corelib::random::{draw, new_random, next_units, spans};
use wren::corelib::ranges::advance_range;
use wren::corelib::reply::{Chance, Sum};
use wren::corelib::reply::{Drawing, Reply};
use wren::corelib::sequences::conclude;
use wren::corelib::tasks::{Ask, Task, Turn};
use wren::lexer::MAX_SOURCE;
use wren::lexer::{Numeral, Token, TokenKind};
use wren::object::Method;
use wren::vm::calls::Prepared;
use wren::vm::modules::{not_loaded, Source};
use wren::vm::shown::Piece;
use wren::vm::shown::{
    notation, number_word, scientific_text, trim_trailing_zeros, Notation, SIGNIFICANT,
};
use wren::vm::step::Outcome;
use wren::vm::{NUM_ADD, NUM_DIV, NUM_MOD, NUM_MUL, NUM_SUB};
use wren::vm::{RuntimeError, Vm, WrenError};
use wren::{ObjectId, Value};

/// Two to the fifty-third, the units that a random fraction is given in.
const UNITS: f64 = 9_007_199_254_740_992.0;

/// The arithmetic of an instruction. Floating point.
fn arithmetic(operation: u8, left: u64, right: u64) -> u64 {
    let (a, b) = (f64::from_bits(left), f64::from_bits(right));
    let result = match operation {
        NUM_ADD => a + b,
        NUM_SUB => a - b,
        NUM_MUL => a * b,
        NUM_DIV => a / b,
        NUM_MOD => a % b,
        _ => f64::NAN,
    };
    result.to_bits()
}

/// What a method of `Num` computes. Floating point.
fn compute(sum: Sum, left: u64, right: u64) -> u64 {
    let (a, b) = (f64::from_bits(left), f64::from_bits(right));
    let result = match sum {
        Sum::Add => a + b,
        Sum::Subtract => a - b,
        Sum::Multiply => a * b,
        Sum::Divide => a / b,
        Sum::Remainder => a % b,
        Sum::Sqrt => libm::sqrt(a),
        Sum::Fraction => a - libm::trunc(a),
        Sum::Round => libm::round(a),
        Sum::Pow => libm::pow(a, b),
        Sum::Log => libm::log(a),
        Sum::Log2 => libm::log2(a),
        Sum::Exp => libm::exp(a),
        Sum::Cbrt => libm::cbrt(a),
        Sum::Sin => libm::sin(a),
        Sum::Cos => libm::cos(a),
        Sum::Tan => libm::tan(a),
        Sum::Asin => libm::asin(a),
        Sum::Acos => libm::acos(a),
        Sum::Atan => libm::atan(a),
        Sum::Atan2 => libm::atan2(a, b),
    };
    result.to_bits()
}

/// A fraction between zero and one, of its units.
fn fraction(units: u64) -> f64 {
    units as f64 / UNITS
}

/// What is made of a random fraction. Floating point.
fn chance(units: u64, of: Chance) -> u64 {
    let part = fraction(units);
    let result = match of {
        Chance::Fraction => part,
        Chance::UpTo { end } => part * f64::from_bits(end),
        Chance::Between { start, end } => {
            let start = f64::from_bits(start);
            start + part * (f64::from_bits(end) - start)
        }
        Chance::WholeUpTo { end } => libm::floor(part * f64::from_bits(end)),
        Chance::WholeBetween { start, end } => {
            let start = f64::from_bits(start);
            start + libm::floor(part * (f64::from_bits(end) - start))
        }
    };
    result.to_bits()
}

/// Which of so many a random fraction picks. Floating point.
fn pick(units: u64, among: usize) -> usize {
    (fraction(units) * among as f64) as usize
}

/// The number after or before another. Floating point.
fn neighbour(bits: u64, up: bool) -> u64 {
    let n = f64::from_bits(bits);
    if up { n + 1.0 } else { n - 1.0 }.to_bits()
}

/// What a number token is worth. Floating point.
fn literal(token: &Token, source: &str) -> Option<u64> {
    if token.kind != TokenKind::Number {
        return None;
    }
    match token.number(source)? {
        Numeral::Whole(n) => Some((n as f64).to_bits()),
        Numeral::Decimal => token.text(source).parse::<f64>().ok().map(f64::to_bits),
    }
}

/// How a number is shown. The digits are the formatter's, which is floating
/// point.
fn number_text(bits: u64) -> String {
    if let Some(word) = number_word(bits) {
        return word;
    }
    let value = f64::from_bits(bits);
    let exponential = format!("{:.*e}", SIGNIFICANT - 1, value);
    let Some((mantissa, exponent)) = exponential.split_once('e') else {
        return exponential;
    };
    let Ok(exponent) = exponent.parse::<i32>() else {
        return exponential;
    };
    match notation(exponent) {
        Notation::Scientific => scientific_text(mantissa, exponent),
        Notation::Fixed(decimals) => trim_trailing_zeros(&format!("{value:.decimals$}")),
    }
}

/// How many instructions are run before the loop looks up.
const STEPS: usize = 4096;

/// A machine, and what it takes from outside.
struct Machine {
    vm: Vm,
    loader: Option<Box<dyn Fn(&str) -> Option<String>>>,
}

impl Machine {
    /// A machine with the core library.
    fn new() -> Machine {
        Machine { vm: Vm::new(), loader: None }
    }

    /// Find the source of modules by a function.
    fn set_module_loader(&mut self, loader: impl Fn(&str) -> Option<String> + 'static) {
        self.loader = Some(Box::new(loader));
    }

    /// Run source in the main module.
    fn interpret(&mut self, source: &str) -> Result<(), WrenError> {
        match self.compile_in(source, 0) {
            Ok(chunk) => self.run(Rc::new(chunk)).map_err(WrenError::Runtime),
            Err(error) => Err(WrenError::Compile { message: error.message, line: error.line }),
        }
    }

    /// Compile source into a module.
    fn compile_in(&mut self, source: &str, module: usize) -> Result<Chunk, CompileError> {
        assert!(module < self.vm.modules.len(), "there is no such module");
        assert!(source.len() <= MAX_SOURCE, "the source is too long");
        let tokens = tokenize(source);
        let numbers = tokens.iter().map(|token| literal(token, source)).collect();
        let literals = make_literals(&mut self.vm, source.as_bytes(), &tokens, &numbers)
            .expect("the heap has no room for the literals");
        compile(&mut self.vm, module, source.as_bytes(), &tokens, &literals)
    }

    /// Run code in the main module.
    fn run(&mut self, chunk: Rc<Chunk>) -> Result<(), RuntimeError> {
        self.run_module(chunk, 0)
    }

    /// Run code in a module.
    fn run_module(&mut self, chunk: Rc<Chunk>, module: usize) -> Result<(), RuntimeError> {
        self.need_room(2);
        let closure = self.vm.module_closure(chunk, "(module)", module);
        self.run_closure(closure)
    }

    /// Run a closure as a program.
    fn run_closure(&mut self, closure: ObjectId) -> Result<(), RuntimeError> {
        self.need_room(1);
        let depth = self.vm.frames.len();
        let chunk = self.vm.start_closure(closure)?;
        self.run_frames(chunk, depth)?;
        Ok(())
    }

    /// Panic where the heap has no room for so many objects.
    fn need_room(&self, objects: usize) {
        assert!(self.vm.heap.fits_more(objects), "the heap is full");
    }

    /// Run until the frames are down to a floor again.
    fn run_frames(&mut self, chunk: Rc<Chunk>, floor: usize) -> Result<Value, RuntimeError> {
        let mut run = self.vm.begin(chunk, floor);
        loop {
            let mut outcome = self.vm.run_steps(&mut run, STEPS);
            loop {
                outcome = match outcome {
                    Outcome::Next | Outcome::Jumped => break,
                    Outcome::Finished(value) => return Ok(value),
                    Outcome::Failed(error) => return Err(error),
                    Outcome::Arithmetic { operation, left, right } => {
                        let bits = arithmetic(operation, left, right);
                        self.vm.answer(&run, Value::num(bits));
                        break;
                    }
                    Outcome::Primitive { primitive, at, line } => {
                        let result = self.primitive(primitive, at);
                        self.vm.finish_primitive(&mut run, result, at, line)
                    }
                    Outcome::Raise { value, line } => {
                        let message = self.to_string(value);
                        self.vm.raise(&mut run, &message, line)
                    }
                    Outcome::Import { name } => match self.load_module(&name) {
                        Ok(None) => {
                            self.vm.answer(&run, Value::null());
                            break;
                        }
                        Ok(Some(closure)) => self.vm.enter_module(&mut run, closure),
                        Err(error) => {
                            let at = run.ip;
                            self.vm.hand_on(&mut run, error, at)
                        }
                    },
                    Outcome::ShowClass { name } => {
                        let name = self.to_string(name);
                        self.vm.class_shown(&mut run, &name)
                    }
                    Outcome::ShowModule { value } => {
                        let name = self.to_string(value);
                        self.vm.import_named(&run, &name)
                    }
                    Outcome::ShowVariable { module, variable } => {
                        let module = self.to_string(module);
                        let variable = self.to_string(variable);
                        self.vm.import_shown(&mut run, &module, &variable)
                    }
                    Outcome::Exhausted => panic!("the heap is full"),
                    Outcome::Malformed => panic!("the code refers to what is not there"),
                };
            }
        }
    }

    /// Find a module; its code comes back if it has not run yet.
    fn load_module(&mut self, name: &str) -> Result<Option<ObjectId>, RuntimeError> {
        match self.vm.module_source(name) {
            Source::Loaded(_) => Ok(None),
            Source::BuiltIn => {
                self.need_room(4);
                assert!(
                    self.vm.primitives.len() + RANDOM_PRIMITIVES < MAX_PRIMITIVES,
                    "there are too many primitives"
                );
                install_random(&mut self.vm);
                self.vm.flatten_class_hierarchy();
                Ok(None)
            }
            Source::Elsewhere => {
                let found = self.loader.as_ref().and_then(|loader| loader(name));
                let Some(source) = found else {
                    return Err(not_loaded(name, 0));
                };
                let index = self.vm.add_module(name);
                match self.compile_in(&source, index) {
                    Err(error) => Err(RuntimeError { message: error.message, line: error.line }),
                    Ok(chunk) => {
                        self.need_room(2);
                        Ok(Some(self.vm.module_closure(Rc::new(chunk), name, index)))
                    }
                }
            }
        }
    }

    /// Carry out a primitive.
    fn primitive(&mut self, primitive: Primitive, at: usize) -> Result<Value, RuntimeError> {
        let reply = perform(&mut self.vm, primitive, at);
        self.settle(reply)
    }

    /// Do what a reply asks for.
    fn settle(&mut self, reply: Reply) -> Result<Value, RuntimeError> {
        match reply {
            Reply::Done(result) => result,
            Reply::Compute { sum, left, right } => {
                Ok(Value::num(compute(sum, left, right)))
            }
            Reply::Show(value) => {
                let text = self.to_string(value);
                self.need_room(1);
                Ok(self.vm.new_string(&text))
            }
            Reply::ShowPair(key, value) => {
                let text = format!("{}:{}", self.to_string(key), self.to_string(value));
                self.need_room(1);
                Ok(self.vm.new_string(&text))
            }
            Reply::Abort(value) => Err(RuntimeError::new(&self.to_string(value))),
            Reply::Call { closure, at } => self.call_closure(closure, at),
            Reply::Advance { range, iterator, up } => {
                let next = neighbour(iterator, up);
                Ok(advance_range(&range, next, up))
            }
            Reply::Chance { units, of } => Ok(Value::num(chance(units, of))),
            Reply::Draw { list, from, drawing } => self.draw(list, from, drawing),
            Reply::Seed => {
                self.need_room(1);
                let class = self.vm.random_class;
                Ok(new_random(&mut self.vm, class, default_seed()))
            }
            Reply::Work(task) => self.work(task),
            Reply::Stuck => panic!("a method was called with what it cannot be called with"),
            Reply::Full => panic!("the heap is full"),
        }
    }

    /// Draw from a list with a random number generator. The choices are made in
    /// floating point.
    fn draw(&mut self, list: Value, from: Value, drawing: Drawing) -> Result<Value, RuntimeError> {
        let length = wren::corelib::lists::list_length(&self.vm, list);
        let spans = spans(drawing, length).expect("there are enough elements to draw");
        let mut choices = Vec::new();
        self.need_room(1);
        for span in spans {
            let units = next_units(&mut self.vm, from).unwrap_or(0);
            choices.push(pick(units, span));
        }
        let reply = draw(&mut self.vm, list, drawing, &choices);
        self.settle(reply)
    }

    /// See a task through.
    fn work(&mut self, mut task: Task) -> Result<Value, RuntimeError> {
        let mut turn = task.begin(&self.vm);
        loop {
            match turn {
                Turn::Wants(ask) => {
                    let answer = match ask {
                        Ask::Invoke { receiver, message, arguments } if arguments.is_empty() => {
                            self.invoke(receiver, message.signature())?
                        }
                        Ask::Invoke { receiver, message, arguments } => {
                            self.invoke_with(receiver, message.signature(), &arguments)?
                        }
                        Ask::Call { function, arguments } => {
                            self.call_function(function, &arguments)?
                        }
                    };
                    turn = task.resume(&self.vm, answer);
                }
                Turn::Ends(end) => {
                    self.need_room(1);
                    let reply = conclude(&mut self.vm, end);
                    return self.settle(reply);
                }
            }
        }
    }

    /// Make a call that was set up, and take it off the stack.
    fn make_call(&mut self, call: Prepared) -> Result<Value, RuntimeError> {
        let result = match call.method {
            Method::Primitive(primitive) => self.primitive(primitive, call.at),
            Method::Closure(closure) => self.call_closure(closure, call.at),
        };
        self.vm.end_call(call.at);
        result
    }

    /// Call a method without arguments; a value that has none answers itself.
    fn invoke(&mut self, receiver: Value, signature: &str) -> Result<Value, RuntimeError> {
        match self.vm.prepare_invoke(receiver, signature) {
            None => Ok(receiver),
            Some(call) => self.make_call(call),
        }
    }

    /// Call a method with arguments.
    fn invoke_with(
        &mut self,
        receiver: Value,
        signature: &str,
        arguments: &[Value],
    ) -> Result<Value, RuntimeError> {
        let call = self.vm.prepare_invoke_with(receiver, signature, arguments)?;
        self.make_call(call)
    }

    /// Call a function value.
    fn call_function(
        &mut self,
        function: Value,
        arguments: &[Value],
    ) -> Result<Value, RuntimeError> {
        let call = self.vm.prepare_call(function, arguments)?;
        self.make_call(call)
    }

    /// Call a closure with what is on the stack.
    fn call_closure(&mut self, closure: ObjectId, base: usize) -> Result<Value, RuntimeError> {
        let depth = self.vm.frames.len();
        let chunk = self.vm.push_frame(closure, base)?;
        self.run_frames(chunk, depth)
    }

    /// What a value says it is.
    fn stringify(&mut self, value: Value) -> Result<String, RuntimeError> {
        let returned = self.invoke(value, "toString")?;
        Ok(self.vm.stringified(returned))
    }

    /// How a value is shown.
    fn to_string(&self, value: Value) -> String {
        match self.vm.shown(value, usize::MAX) {
            None => unreachable!("nothing nests deeper than memory is large"),
            Some(pieces) => pieces
                .iter()
                .map(|piece| match piece {
                    Piece::Text(text) => text.clone(),
                    Piece::Number(bits) => number_text(*bits),
                })
                .collect(),
        }
    }
}

/// A seed.
fn default_seed() -> u32 {
    0x1234_5678
}

/// What a program prints, or how it fails.
fn outcome(source: &str) -> Result<String, (u16, String)> {
    let mut machine = Machine::new();
    match machine.interpret(source) {
        Ok(()) => Ok(machine.vm.output_str().to_string()),
        Err(error) => Err((error.line(), error.message().to_string())),
    }
}

/// What a program that works prints.
fn printed(source: &str) -> String {
    outcome(source).unwrap_or_else(|(line, message)| panic!("line {line}: {message}"))
}

/// What a program that fails says.
fn failed(source: &str) -> (u16, String) {
    match outcome(source) {
        Ok(text) => panic!("it printed {text}"),
        Err(error) => error,
    }
}

#[test]
fn arithmetic_and_precedence() {
    assert_eq!(printed("System.print(1 + 2)"), "3\n");
    assert_eq!(printed("System.print(1 + 2 * 3)"), "7\n");
    assert_eq!(printed("System.print((1 + 2) * 3)"), "9\n");
    assert_eq!(printed("System.print(10 % 3)"), "1\n");
    assert_eq!(printed("System.print(7 - 2 - 1)"), "4\n");
    assert_eq!(printed("System.print(-5.abs)"), "-5\n");
    assert_eq!(printed("System.print((-5).abs)"), "5\n");
    assert_eq!(printed("System.print(0xff)"), "255\n");
}

#[test]
fn numbers_are_shown_with_fourteen_digits() {
    assert_eq!(printed("System.print(0.1 + 0.2)"), "0.3\n");
    assert_eq!(printed("System.print(1 / 3)"), "0.33333333333333\n");
    assert_eq!(printed("System.print(123456789012345678)"), "1.2345678901235e+17\n");
    assert_eq!(printed("System.print(0.00001)"), "1e-05\n");
    assert_eq!(printed("System.print(1 / 0)"), "infinity\n");
    assert_eq!(printed("System.print(-1 / 0)"), "-infinity\n");
    assert_eq!(printed("System.print(0 / 0)"), "nan\n");
    assert_eq!(printed("System.print(0 * -1)"), "-0\n");
}

#[test]
fn strings_and_variables() {
    assert_eq!(printed("System.print(\"hello\")"), "hello\n");
    assert_eq!(printed("var a = 3\nSystem.print(a * 2)"), "6\n");
    assert_eq!(
        printed("var n = 7\nSystem.print(\"n is %(n) and double is %(n * 2)\")"),
        "n is 7 and double is 14\n"
    );
    assert_eq!(printed("System.print(\"a\\tb\\\\\")"), "a\tb\\\n");
    assert_eq!(printed("System.print(\"a\" == \"a\")"), "true\n");
}

#[test]
fn conditions_and_loops() {
    assert_eq!(
        printed("if (3 > 2) System.print(\"big\") else System.print(\"small\")"),
        "big\n"
    );
    assert_eq!(
        printed("var i = 0\nwhile (i < 3) {\n  System.print(i)\n  i = i + 1\n}"),
        "0\n1\n2\n"
    );
    assert_eq!(
        printed("var t = 0\nvar i = 1\nwhile (i <= 10) {\n  t = t + i\n  i = i + 1\n}\nSystem.print(t)"),
        "55\n"
    );
}

#[test]
fn lists_are_worked_on() {
    assert_eq!(printed("System.print(List.filled(3, 7))"), "[7, 7, 7]\n");
    assert_eq!(printed("System.print(List.filled(3, 7).count)"), "3\n");
    assert_eq!(printed("var l = List.filled(2, 1)\nl.add(3)\nSystem.print(l[2])"), "3\n");
    assert_eq!(printed("var l = List.filled(1, 5)\nl[0] = 6\nSystem.print(l[-1])"), "6\n");
    assert_eq!(printed("System.print(List.filled(3, 1).join(\"-\"))"), "1-1-1\n");
    assert_eq!(printed("System.print((1..4).toList)"), "[1, 2, 3, 4]\n");
    assert_eq!(printed("System.print((4...1).toList)"), "[4, 3, 2]\n");
}

#[test]
fn logic_short_circuits() {
    assert_eq!(printed("System.print(true && false)"), "false\n");
    assert_eq!(printed("System.print(true || false)"), "true\n");
    assert_eq!(printed("System.print(false && null.here)"), "false\n");
    assert_eq!(printed("System.print(1 || null.here)"), "1\n");
    assert_eq!(printed("System.print(1 != 2)"), "true\n");
}

/// The code that source compiles to.
fn units(source: &str) -> Vec<(Op, u8)> {
    let mut machine = Machine::new();
    let chunk = machine.compile_in(source, 0).unwrap();
    chunk
        .code
        .iter()
        .map(|unit| (Op::from_byte(Chunk::opcode_of(*unit)), Chunk::inline_operand(*unit)))
        .filter_map(|(op, operand)| op.map(|op| (op, operand)))
        .collect()
}

#[test]
fn locals_are_numbered_in_the_order_they_are_declared() {
    assert_eq!(
        units("{\n  var a = true\n  var b = false\n  b\n  a\n}"),
        vec![
            (Op::True, 0),
            (Op::False, 0),
            (Op::LoadLocal, 1),
            (Op::Pop, 0),
            (Op::LoadLocal, 0),
            (Op::Pop, 0),
            (Op::Pop, 0),
            (Op::Pop, 0),
            (Op::End, 0),
        ]
    );
}

#[test]
fn the_innermost_local_is_meant() {
    assert_eq!(
        units("{\n  var a = true\n  {\n    var a = false\n    a\n  }\n  a\n}"),
        vec![
            (Op::True, 0),
            (Op::False, 0),
            (Op::LoadLocal, 1),
            (Op::Pop, 0),
            (Op::Pop, 0),
            (Op::LoadLocal, 0),
            (Op::Pop, 0),
            (Op::Pop, 0),
            (Op::End, 0),
        ]
    );
}

#[test]
fn source_that_is_wrong_is_refused() {
    assert_eq!(failed("var"), (1, "Expect variable name.".to_string()));
    assert_eq!(failed("1 +"), (1, "Expected expression.".to_string()));
    assert_eq!(failed("var a = 1\n1 = 2"), (2, "Invalid assignment target.".to_string()));
    assert_eq!(failed("foo"), (1, "Variable is not defined.".to_string()));
    assert_eq!(failed("1.foo("), (1, "Expected expression.".to_string()));
    assert_eq!(failed("if 1"), (1, "Expect '(' after 'if'.".to_string()));
    assert_eq!(failed("1 2"), (1, "Expect newline after statement.".to_string()));
    assert_eq!(failed("\"open"), (1, "Invalid token.".to_string()));
    assert_eq!(failed("System.print(0x)"), (1, "Invalid number literal.".to_string()));
}

#[test]
fn programs_that_fail_say_where() {
    assert_eq!(failed("\n\n1.nothing"), (3, "Num does not implement 'nothing'.".to_string()));
    assert_eq!(failed("null.foo(1)"), (1, "Null does not implement 'foo(_)'.".to_string()));
    assert_eq!(failed("List.filled(1, 2)[3]").1, "Index out of bounds.");
    assert_eq!(failed("Fiber.abort(\"stop\")").1, "stop");
}

#[test]
fn modules_are_loaded_once() {
    let mut machine = Machine::new();
    machine.set_module_loader(|name| match name {
        "one" => Some("System.print(\"loading\")".to_string()),
        _ => None,
    });
    let index = machine.vm.modules.len();
    let first = machine.load_module("one").unwrap();
    assert!(first.is_some());
    assert_eq!(machine.vm.modules.len(), index + 1);
    assert!(machine.load_module("one").unwrap().is_none());
    assert_eq!(machine.vm.modules.len(), index + 1);
    match machine.load_module("two") {
        Err(error) => assert_eq!(error.message, "Could not load module 'two'."),
        Ok(_) => panic!("there is no such module"),
    }
}

#[test]
fn random_numbers_repeat_with_the_seed() {
    let mut machine = Machine::new();
    machine.load_module("random").unwrap();
    let class = machine.vm.random_class;
    let a = new_random(&mut machine.vm, class, 7);
    let b = new_random(&mut machine.vm, class, 7);
    for _ in 0..20 {
        let x = machine.invoke(a, "int()").unwrap();
        let y = machine.invoke(b, "int()").unwrap();
        assert_eq!(x, y);
    }
    let part = machine.invoke(a, "float()").unwrap();
    let part = f64::from_bits(part.as_num().unwrap());
    assert!((0.0..1.0).contains(&part));
}

#[test]
fn shuffling_keeps_the_elements() {
    let mut machine = Machine::new();
    machine.load_module("random").unwrap();
    let class = machine.vm.random_class;
    let generator = new_random(&mut machine.vm, class, 3);
    machine.interpret("var list = (1..5).toList").unwrap();
    let list = machine.vm.modules[0].get("list").unwrap();
    machine.invoke_with(generator, "shuffle(_)", &[list]).unwrap();
    let mut elements: Vec<u64> = wren::corelib::lists::list_elements(&machine.vm, list)
        .iter()
        .map(|value| value.as_num().unwrap())
        .collect();
    elements.sort_by(|a, b| f64::from_bits(*a).total_cmp(&f64::from_bits(*b)));
    let expected: Vec<u64> = [1.0f64, 2.0, 3.0, 4.0, 5.0].iter().map(|n| n.to_bits()).collect();
    assert_eq!(elements, expected);
}

#[test]
fn memory_is_reclaimed_while_a_program_runs() {
    let mut machine = Machine::new();
    machine
        .interpret("var i = 0\nwhile (i < 20000) {\n  var s = \"n%(i)\"\n  i = i + 1\n}")
        .unwrap();
    assert!(machine.vm.heap.collections() > 0);
    assert!(machine.vm.heap.live() < 20000);
}

#[test]
fn every_kind_of_wrong_source_is_named() {
    let wrong = [
        ("1.f(1,2,3,4,5,6,7,8,9,10,11,12,13,14,15,16,17)", "Cannot pass more than 16 arguments."),
        ("for 1", "Expect '(' after 'for'."),
        ("while 1", "Expect '(' after 'while'."),
        ("1.f(1", "Expect ')' after arguments."),
        ("(1", "Expect ')' after expression."),
        ("if (1", "Expect ')' after if condition."),
        ("for (i in 1", "Expect ')' after loop expression."),
        ("while (1", "Expect ')' after while condition."),
        ("[1", "Expect ']' after list elements."),
        ("1[1", "Expect ']' after subscript."),
        ("for (i 1", "Expect 'in' after loop variable."),
        ("{\n1\n", "Expect '}' after block."),
        ("for (1", "Expect for loop variable name."),
        ("1.2.", "Expect method name after '.'."),
    ];
    for (source, message) in wrong {
        assert_eq!(failed(source).1, message, "{source}");
    }
}

#[test]
fn there_is_an_end_to_locals() {
    let mut source = String::from("{\n");
    for i in 0..256 {
        source.push_str(&format!("var a{i} = null\n"));
    }
    source.push_str("}\n");
    assert_eq!(failed(&source), (257, "Too many local variables in scope.".to_string()));
}

#[test]
fn there_is_an_end_to_jumps() {
    let body = "null.f\n".repeat(20000);
    assert_eq!(failed(&format!("while (true) {{\n{body}}}\n")).1, "Loop body too large.");
    assert_eq!(failed(&format!("if (true) {{\n{body}}}\n")).1, "Too much code to jump over.");
}

#[test]
fn there_is_an_end_to_method_names() {
    let mut source = String::new();
    for i in 0..66000 {
        source.push_str(&format!("null.m{i}\n"));
    }
    assert_eq!(failed(&source).1, "Too many method names.");
}

#[test]
fn a_line_ends_a_statement_and_blocks_nest() {
    assert_eq!(printed("\n\nSystem.print(1)\n\n{\n{\nSystem.print(2)\n}\n}\n"), "1\n2\n");
    assert_eq!(printed("System.print(1 +\n 2)"), "3\n");
}

#[test]
fn sequences_are_worked_through_in_order() {
    assert_eq!(printed("System.print((1..3).join(\",\"))"), "1,2,3\n");
    assert_eq!(printed("System.print((1..3).count)"), "3\n");
    assert_eq!(printed("System.print((1..9).contains(4))"), "true\n");
    assert_eq!(printed("System.print((1..9).contains(10))"), "false\n");
    assert_eq!(printed("System.print((1..5).take(2).toList)"), "[1, 2]\n");
    assert_eq!(printed("System.print((1..5).skip(3).toList)"), "[4, 5]\n");
}

#[test]
fn strings_are_worked_on() {
    assert_eq!(printed("System.print(\"a,b\".split(\",\"))"), "[a, b]\n");
    assert_eq!(printed("System.print(\"hello\"[1..2])"), "el\n");
    assert_eq!(printed("System.print(\"hello\".indexOf(\"l\"))"), "2\n");
    assert_eq!(printed("System.print(\"h\u{e9}\".count)"), "3\n");
    assert_eq!(printed("System.print(\"ab\" * 2)"), "abab\n");
    assert_eq!(printed("System.print(\"a\" + \"b\")"), "ab\n");
    assert_eq!(printed("System.print(String.fromCodePoint(8364))"), "\u{20ac}\n");
    assert_eq!(failed("\"a\" + 1").1, "Right operand must be a string.");
}

#[test]
fn a_sample_takes_each_element_once() {
    let mut machine = Machine::new();
    machine.load_module("random").unwrap();
    let class = machine.vm.random_class;
    let generator = new_random(&mut machine.vm, class, 11);
    machine.interpret("var list = (1..6).toList").unwrap();
    let list = machine.vm.modules[0].get("list").unwrap();
    let four = Value::num(4.0f64.to_bits());
    let sample = machine.invoke_with(generator, "sample(_,_)", &[list, four]).unwrap();
    let taken = wren::corelib::lists::list_elements(&machine.vm, sample);
    assert_eq!(taken.len(), 4);
    for (i, a) in taken.iter().enumerate() {
        assert!(taken[i + 1..].iter().all(|b| b != a));
    }
    let ten = Value::num(10.0f64.to_bits());
    let refused = machine.invoke_with(generator, "sample(_,_)", &[list, ten]);
    assert_eq!(refused.unwrap_err().message, "Not enough elements to sample.");
}

/// Code that imports by a number, a variable of the same module by a string.
fn importing(machine: &mut Machine, variable: Value) -> Chunk {
    let mut chunk = Chunk::new();
    let module = chunk.add_constant(Value::num(5.0f64.to_bits())).unwrap();
    let name = chunk.add_constant(variable).unwrap();
    let symbol = machine.vm.modules[0].define("got", Value::null());
    chunk.emit_op(Op::ImportModule, 1);
    chunk.emit_short(module, 1);
    chunk.emit_op(Op::Pop, 1);
    chunk.emit_op(Op::ImportVariable, 1);
    chunk.emit_short(module, 1);
    chunk.emit_short(name, 1);
    chunk.emit_op(Op::StoreModuleVar, 1);
    chunk.emit_short(symbol as u16, 1);
    chunk.emit_op(Op::Pop, 1);
    chunk.emit_op(Op::Null, 1);
    chunk.emit_op(Op::Return, 1);
    chunk.finish();
    chunk
}

#[test]
fn a_module_goes_by_how_its_name_is_shown() {
    let mut machine = Machine::new();
    machine.set_module_loader(|name| match name {
        "5" => Some("var Answer = 42".to_string()),
        _ => None,
    });
    let name = machine.vm.new_string("Answer");
    let chunk = importing(&mut machine, name);
    machine.run(Rc::new(chunk)).unwrap();
    let got = machine.vm.modules[0].get("got").unwrap();
    assert_eq!(got, Value::num(42.0f64.to_bits()));
    let chunk = importing(&mut machine, Value::bool(true));
    let error = machine.run(Rc::new(chunk)).unwrap_err();
    assert!(error.message.contains("true"), "{}", error.message);
}

#[test]
fn a_class_is_refused_by_how_its_name_is_shown() {
    let mut machine = Machine::new();
    let class = Value::object(machine.vm.num_class);
    let mut chunk = Chunk::new();
    let name = chunk.add_constant(Value::num(1.5f64.to_bits())).unwrap();
    let parent = chunk.add_constant(class).unwrap();
    chunk.emit_op(Op::Constant, 1);
    chunk.emit_short(name, 1);
    chunk.emit_op(Op::Constant, 1);
    chunk.emit_short(parent, 1);
    chunk.emit_op(Op::Class, 1);
    chunk.emit_op(Op::Return, 1);
    chunk.finish();
    let error = machine.run(Rc::new(chunk)).unwrap_err();
    assert_eq!(error.message, "Class '1.5' cannot inherit from built-in class 'Num'.");
}
