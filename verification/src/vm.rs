//! The virtual machine: what it holds, and what can be asked of it.

pub mod boot;
pub mod calls;
pub mod class_laws;
pub mod classes;
pub mod fibers;
pub mod frame;
pub mod fields;
pub mod garbage;
pub mod inherit;
pub mod lookup;
pub mod modules;
pub mod paths;
pub mod shown;
pub mod step;
pub mod upvalues;

use vstd::prelude::*;

pub use self::frame::Frame;

use crate::corelib::primitive::Primitive;
use crate::handle::ObjectId;
use crate::heap::Heap;
use crate::symbol::SymbolTable;
use crate::value::Value;

verus! {

/// The most calls that may be in progress.
pub const MAX_FRAMES: usize = 256;

/// How many young objects make a minor collection worth it.
pub const NURSERY_OBJECTS: usize = 2048;

/// A failure while running.
#[derive(Debug, Clone, PartialEq, Eq)]
pub struct RuntimeError {
    pub message: String,
    /// The line, or zero where whoever raised it does not know.
    pub line: u16,
}

impl RuntimeError {
    /// An error whose line is filled in by the interpreter.
    pub fn new(message: &str) -> (error: RuntimeError)
        ensures
            error.message@ == message@,
            error.line == 0,
    {
        RuntimeError { message: message.to_owned(), line: 0 }
    }
}

/// Whether an outcome is an error with this message and no line.
pub open spec fn fails<T>(r: Result<T, RuntimeError>, message: Seq<char>) -> bool {
    r matches Err(error) && error.message@ == message && error.line == 0
}

/// Whether an outcome is the one expected, an error being told by its message.
pub open spec fn agrees<T>(r: Result<T, RuntimeError>, expected: Result<T, Seq<char>>) -> bool {
    match expected {
        Ok(value) => r matches Ok(given) && given == value,
        Err(message) => fails(r, message),
    }
}

/// A failure to compile or to run.
#[derive(Debug, Clone, PartialEq, Eq)]
pub enum WrenError {
    Compile { message: String, line: u16 },
    Runtime(RuntimeError),
}

impl WrenError {
    /// What went wrong.
    pub fn message(&self) -> (text: &str)
        ensures
            text@ == match self {
                WrenError::Compile { message, line } => message@,
                WrenError::Runtime(error) => error.message@,
            },
    {
        match self {
            WrenError::Compile { message, .. } => message.as_str(),
            WrenError::Runtime(error) => error.message.as_str(),
        }
    }

    /// The line it went wrong on.
    pub fn line(&self) -> (n: u16)
        ensures
            n == match self {
                WrenError::Compile { message, line } => *line,
                WrenError::Runtime(error) => error.line,
            },
    {
        match self {
            WrenError::Compile { line, .. } => *line,
            WrenError::Runtime(error) => error.line,
        }
    }
}

/// A request to go on in another fiber.
#[derive(Debug, Clone, Copy)]
pub struct Switch {
    /// Where to go on.
    pub target: ObjectId,
    /// What to hand over.
    pub value: Value,
    /// Whether the target is to remember who resumed it.
    pub set_caller: bool,
    /// Whether the one who resumes wants an error handed back.
    pub catching: bool,
    /// Whether the fiber that is left is finished.
    pub finishing: bool,
    /// Whether the target is to fail with the value.
    pub as_error: bool,
}

/// One module's variables.
#[derive(Debug)]
pub struct Module {
    /// The name the module was loaded under.
    pub name: String,
    /// The variables' names.
    pub names: SymbolTable,
    /// Their values, in the same order.
    pub values: Vec<Value>,
}

impl Module {
    /// Every name has a value, and no name is there twice.
    pub open spec fn wf(&self) -> bool {
        self.names.wf() && self.values@.len() == self.names@.len()
    }

    /// The value of a variable, if there is one.
    pub open spec fn spec_get(&self, name: Seq<char>) -> Option<Value> {
        if self.names@.contains(name) {
            Some(self.values@[self.names@.index_of(name)])
        } else {
            None
        }
    }

    /// A module without variables.
    pub fn new() -> (module: Module)
        ensures
            module.wf(),
            module.name@ == Seq::<char>::empty(),
            module.names@ == Seq::<Seq<char>>::empty(),
            module.values@ == Seq::<Value>::empty(),
    {
        Module { name: String::new(), names: SymbolTable::new(), values: Vec::new() }
    }

    /// The value of a variable, if there is one.
    pub fn get(&self, name: &str) -> (r: Option<Value>)
        requires
            self.wf(),
        ensures
            r == self.spec_get(name@),
    {
        match self.names.find(name) {
            Some(index) => {
                proof {
                    crate::symbol::lemma_index(&self.names, name@, index as int);
                }
                Some(self.values[index])
            },
            None => None,
        }
    }

    /// Give a variable a value, adding it if it is new, and say which it is.
    pub fn define(&mut self, name: &str, value: Value) -> (index: usize)
        requires
            old(self).wf(),
        ensures
            final(self).wf(),
            final(self).name == old(self).name,
            index < final(self).names@.len(),
            final(self).names@[index as int] == name@,
            old(self).names@.contains(name@) ==> final(self).names@ == old(self).names@
                && final(self).values@ == old(self).values@.update(index as int, value),
            !old(self).names@.contains(name@) ==> final(self).names@ == old(self).names@.push(name@)
                && final(self).values@ == old(self).values@.push(value),
    {
        let index: usize = self.names.ensure(name);
        if self.values.len() <= index {
            self.values.push(value);
        } else {
            self.values.set(index, value);
        }
        index
    }
}

impl Default for Module {
    fn default() -> (module: Module)
        ensures
            module.wf(),
            module.names@ == Seq::<Seq<char>>::empty(),
    {
        Module::new()
    }
}

/// A variable reads as what it was last given.
pub proof fn law_defined_variable_is_read_back(before: Module, after: Module, name: Seq<char>, index: int, value: Value)
    requires
        after.wf(),
        before.wf(),
        0 <= index < after.names@.len(),
        after.names@[index] == name,
        before.names@.contains(name) ==> after.names@ == before.names@ && after.values@
            == before.values@.update(index, value),
        !before.names@.contains(name) ==> after.names@ == before.names@.push(name) && after.values@
            == before.values@.push(value) && index == before.names@.len(),
    ensures
        after.spec_get(name) == Some(value),
{
    assert(after.names@.contains(name));
    crate::symbol::lemma_index(&after.names, name, index);
}

/// No operation.
pub const NUM_OP_NONE: u8 = 0;

pub const NUM_ADD: u8 = 1;

pub const NUM_SUB: u8 = 2;

pub const NUM_MUL: u8 = 3;

pub const NUM_DIV: u8 = 4;

pub const NUM_MOD: u8 = 5;

pub const NUM_LT: u8 = 6;

pub const NUM_GT: u8 = 7;

pub const NUM_LE: u8 = 8;

pub const NUM_GE: u8 = 9;

/// The machine.
pub struct Vm {
    pub heap: Heap,
    /// The values of the running fiber.
    pub stack: Vec<Value>,
    /// The primitives that method tables refer to by number.
    pub primitives: Vec<Primitive>,
    /// The method signatures.
    pub method_names: SymbolTable,
    /// Which arithmetic a method symbol is, by symbol.
    pub num_ops: [u8; 256],
    pub modules: Vec<Module>,
    /// The names that modules were loaded under.
    pub module_names: SymbolTable,
    /// Which module each of those names is.
    pub module_places: Vec<usize>,
    /// How many variables the core library defines in the first module.
    pub core_variables: usize,
    pub num_class: ObjectId,
    pub bool_class: ObjectId,
    pub null_class: ObjectId,
    pub string_class: ObjectId,
    pub list_class: ObjectId,
    pub map_class: ObjectId,
    pub range_class: ObjectId,
    pub class_class: ObjectId,
    pub object_class: ObjectId,
    pub fn_class: ObjectId,
    pub map_entry_class: ObjectId,
    pub fiber_class: ObjectId,
    pub random_class: ObjectId,
    pub sequence_class: ObjectId,
    pub map_sequence_class: ObjectId,
    pub where_sequence_class: ObjectId,
    pub take_sequence_class: ObjectId,
    pub skip_sequence_class: ObjectId,
    pub map_key_sequence_class: ObjectId,
    pub map_value_sequence_class: ObjectId,
    pub class_attributes_class: ObjectId,
    pub string_byte_sequence_class: ObjectId,
    pub string_code_point_sequence_class: ObjectId,
    /// The fiber that is running.
    pub current_fiber: Option<ObjectId>,
    /// The fiber the program started in.
    pub root_fiber: Option<ObjectId>,
    /// Where a primitive asked to go on.
    pub pending_switch: Option<Switch>,
    /// Whether a primitive asked to stop.
    pub halting: bool,
    /// The calls in progress in the running fiber.
    pub frames: Vec<Frame>,
    /// The upvalues that still refer to the stack.
    pub open_upvalues: Vec<ObjectId>,
    /// What the program has printed.
    pub output: Vec<u8>,
}

impl Vm {
    /// The machine's invariant.
    pub open spec fn wf(&self) -> bool {
        &&& self.heap.wf()
        &&& self.method_names.wf()
        &&& self.module_names.wf()
        &&& self.module_places@.len() == self.module_names@.len()
        &&& forall|i: int|
            0 <= i < self.module_places@.len() ==> (#[trigger] self.module_places@[i])
                < self.modules@.len()
        &&& forall|i: int| 0 <= i < self.modules@.len() ==> (#[trigger] self.modules@[i]).wf()
        &&& self.heap@.class(self.class_class) is Some
    }

    /// Whether two machines have the same core classes.
    pub open spec fn same_classes(&self, other: &Vm) -> bool {
        &&& self.num_class == other.num_class
        &&& self.bool_class == other.bool_class
        &&& self.null_class == other.null_class
        &&& self.string_class == other.string_class
        &&& self.list_class == other.list_class
        &&& self.map_class == other.map_class
        &&& self.range_class == other.range_class
        &&& self.class_class == other.class_class
        &&& self.object_class == other.object_class
        &&& self.fn_class == other.fn_class
        &&& self.map_entry_class == other.map_entry_class
        &&& self.fiber_class == other.fiber_class
        &&& self.random_class == other.random_class
        &&& self.sequence_class == other.sequence_class
        &&& self.map_sequence_class == other.map_sequence_class
        &&& self.where_sequence_class == other.where_sequence_class
        &&& self.take_sequence_class == other.take_sequence_class
        &&& self.skip_sequence_class == other.skip_sequence_class
        &&& self.map_key_sequence_class == other.map_key_sequence_class
        &&& self.map_value_sequence_class == other.map_value_sequence_class
        &&& self.class_attributes_class == other.class_attributes_class
        &&& self.string_byte_sequence_class == other.string_byte_sequence_class
        &&& self.string_code_point_sequence_class == other.string_code_point_sequence_class
    }

    /// The core classes, in the order they are roots.
    pub open spec fn class_roots(&self) -> Seq<Value> {
        seq![
            Value::object(self.num_class),
            Value::object(self.bool_class),
            Value::object(self.null_class),
            Value::object(self.string_class),
            Value::object(self.list_class),
            Value::object(self.map_class),
            Value::object(self.range_class),
            Value::object(self.class_class),
            Value::object(self.object_class),
            Value::object(self.fn_class),
            Value::object(self.map_entry_class),
            Value::object(self.fiber_class),
            Value::object(self.random_class),
            Value::object(self.sequence_class),
            Value::object(self.map_sequence_class),
            Value::object(self.where_sequence_class),
            Value::object(self.take_sequence_class),
            Value::object(self.skip_sequence_class),
            Value::object(self.map_key_sequence_class),
            Value::object(self.map_value_sequence_class),
            Value::object(self.class_attributes_class),
            Value::object(self.string_byte_sequence_class),
            Value::object(self.string_code_point_sequence_class),
        ]
    }

    /// Add the core classes to a list of roots.
    fn push_class_roots(&self, roots: &mut Vec<Value>)
        ensures
            final(roots)@ == old(roots)@ + self.class_roots(),
    {
        let ghost before = roots@;
        roots.push(Value::object(self.num_class));
        roots.push(Value::object(self.bool_class));
        roots.push(Value::object(self.null_class));
        roots.push(Value::object(self.string_class));
        roots.push(Value::object(self.list_class));
        roots.push(Value::object(self.map_class));
        roots.push(Value::object(self.range_class));
        roots.push(Value::object(self.class_class));
        roots.push(Value::object(self.object_class));
        roots.push(Value::object(self.fn_class));
        roots.push(Value::object(self.map_entry_class));
        roots.push(Value::object(self.fiber_class));
        roots.push(Value::object(self.random_class));
        roots.push(Value::object(self.sequence_class));
        roots.push(Value::object(self.map_sequence_class));
        roots.push(Value::object(self.where_sequence_class));
        roots.push(Value::object(self.take_sequence_class));
        roots.push(Value::object(self.skip_sequence_class));
        roots.push(Value::object(self.map_key_sequence_class));
        roots.push(Value::object(self.map_value_sequence_class));
        roots.push(Value::object(self.class_attributes_class));
        roots.push(Value::object(self.string_byte_sequence_class));
        roots.push(Value::object(self.string_code_point_sequence_class));
        proof {
            assert(roots@ =~= before + self.class_roots());
        }
    }
}

} // verus!
