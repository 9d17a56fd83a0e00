//! Modules: finding them, adding them, and what is imported from them.

use std::rc::Rc;

use vstd::prelude::*;
use vstd::string::*;

use super::{Module, RuntimeError, Vm};
use crate::bytecode::Chunk;
use crate::handle::ObjectId;
use crate::object::{text_of, ObjClosure, ObjFn, Object};
use crate::text::same_text;
use crate::value::Value;

verus! {

/// Where a module comes from.
#[derive(Clone, Copy, PartialEq, Eq, Structural, Debug)]
pub enum Source {
    /// It is loaded already.
    Loaded(usize),
    /// It is part of the library.
    BuiltIn,
    /// Whoever runs the machine has to find it.
    Elsewhere,
}

/// What is said of a module that cannot be found.
pub open spec fn not_loaded_message(name: Seq<char>) -> Seq<char> {
    "Could not load module '"@ + name + "'."@
}

/// What is said of a variable that a module does not have.
pub open spec fn no_variable_message(variable: Seq<char>, module: Seq<char>) -> Seq<char> {
    "Could not find a variable named '"@ + variable + "' in module '"@ + module + "'."@
}

/// The error for a module that cannot be found.
pub fn not_loaded(name: &str, line: u16) -> (error: RuntimeError)
    ensures
        error.message@ == not_loaded_message(name@),
        error.line == line,
{
    let mut message: String = "Could not load module '".to_owned();
    message.append(name);
    message.append("'.");
    RuntimeError { message, line }
}

impl Vm {
    /// Which module a name was loaded as.
    pub open spec fn spec_module_named(&self, name: Seq<char>) -> Option<usize> {
        if self.module_names@.contains(name) {
            Some(self.module_places@[self.module_names@.index_of(name)])
        } else {
            None
        }
    }

    /// Which module a name was loaded as.
    pub fn module_named(&self, name: &str) -> (r: Option<usize>)
        requires
            self.wf(),
        ensures
            r == self.spec_module_named(name@),
            r matches Some(index) ==> index < self.modules@.len(),
    {
        match self.module_names.find(name) {
            Some(index) => {
                proof {
                    crate::symbol::lemma_index(&self.module_names, name@, index as int);
                }
                Some(self.module_places[index])
            },
            None => None,
        }
    }

    /// Remember which module a name was loaded as.
    pub(crate) fn register_module(&mut self, name: &str, place: usize)
        requires
            old(self).wf(),
            place < old(self).modules@.len(),
        ensures
            final(self).wf(),
            *final(self) == (Vm {
                module_names: final(self).module_names,
                module_places: final(self).module_places,
                ..*old(self)
            }),
            final(self).spec_module_named(name@) == Some(place),
            forall|other: Seq<char>|
                other != name@ ==> #[trigger] final(self).spec_module_named(other)
                    == old(self).spec_module_named(other),
    {
        let ghost before = *self;
        let index: usize = self.module_names.ensure(name);
        if index < self.module_places.len() {
            self.module_places.set(index, place);
        } else {
            self.module_places.push(place);
        }
        proof {
            crate::symbol::lemma_index(&self.module_names, name@, index as int);
            assert forall|other: Seq<char>| other != name@ implies #[trigger] self.spec_module_named(
                other,
            ) == before.spec_module_named(other) by {
                if before.module_names@.contains(other) {
                    let at = before.module_names@.index_of(other);
                    crate::symbol::lemma_index(&before.module_names, other, at);
                    assert(self.module_names@[at] == other);
                    crate::symbol::lemma_index(&self.module_names, other, at);
                } else if self.module_names@.contains(other) {
                    let at = self.module_names@.index_of(other);
                    assert(self.module_names@[at] == other);
                    if at < before.module_names@.len() {
                        assert(before.module_names@[at] == other);
                    }
                    assert(false);
                }
            }
        }
    }

    /// Name the module that the program itself is.
    pub fn set_main_module_name(&mut self, name: &str)
        requires
            old(self).wf(),
            old(self).modules@.len() > 0,
        ensures
            final(self).wf(),
            *final(self) == (Vm {
                modules: final(self).modules,
                module_names: final(self).module_names,
                module_places: final(self).module_places,
                ..*old(self)
            }),
            final(self).modules@.len() == old(self).modules@.len(),
            forall|i: int|
                0 < i < final(self).modules@.len() ==> final(self).modules@[i]
                    == old(self).modules@[i],
            final(self).modules@[0].name@ == name@,
            final(self).modules@[0] == (Module {
                name: final(self).modules@[0].name,
                ..old(self).modules@[0]
            }),
            final(self).spec_module_named(name@) == Some(0usize),
            forall|other: Seq<char>|
                other != name@ ==> #[trigger] final(self).spec_module_named(other)
                    == old(self).spec_module_named(other),
    {
        let mut first = Module::new();
        core::mem::swap(&mut first, &mut self.modules[0]);
        first.name = name.to_owned();
        self.modules.set(0, first);
        self.register_module(name, 0);
    }

    /// Where a module comes from.
    pub fn module_source(&self, name: &str) -> (r: Source)
        requires
            self.wf(),
        ensures
            r == match self.spec_module_named(name@) {
                Some(index) => Source::Loaded(index),
                None => if name@ == "random"@ {
                    Source::BuiltIn
                } else {
                    Source::Elsewhere
                },
            },
    {
        match self.module_named(name) {
            Some(index) => Source::Loaded(index),
            None => if same_text(name, "random") {
                Source::BuiltIn
            } else {
                Source::Elsewhere
            },
        }
    }

    /// Add a module that has the variables of the core library.
    ///
    /// Its name is known from here on, so that a module that imports itself
    /// finds the one being built.
    pub fn add_module(&mut self, name: &str) -> (index: usize)
        requires
            old(self).wf(),
            old(self).modules@.len() > 0,
            old(self).core_variables <= old(self).modules@[0].names@.len(),
        ensures
            final(self).wf(),
            *final(self) == (Vm {
                modules: final(self).modules,
                module_names: final(self).module_names,
                module_places: final(self).module_places,
                ..*old(self)
            }),
            index == old(self).modules@.len(),
            final(self).modules@.len() == old(self).modules@.len() + 1,
            final(self).modules@.take(index as int) == old(self).modules@,
            final(self).modules@[index as int].name@ == name@,
            final(self).modules@[index as int].names@ == old(self).modules@[0].names@.take(
                old(self).core_variables as int,
            ),
            final(self).modules@[index as int].values@ == old(self).modules@[0].values@.take(
                old(self).core_variables as int,
            ),
            final(self).spec_module_named(name@) == Some(index),
            forall|other: Seq<char>|
                other != name@ ==> #[trigger] final(self).spec_module_named(other)
                    == old(self).spec_module_named(other),
    {
        let ghost before = *self;
        let ghost names = before.modules@[0].names@;
        let ghost values = before.modules@[0].values@;
        let mut module = Module::new();
        module.name = name.to_owned();
        let mut i: usize = 0;
        while i < self.core_variables
            invariant
                *self == before,
                before.wf(),
                before.modules@.len() > 0,
                names == before.modules@[0].names@,
                values == before.modules@[0].values@,
                before.core_variables <= names.len(),
                i <= before.core_variables,
                module.wf(),
                module.name@ == name@,
                module.names@ == names.take(i as int),
                module.values@ == values.take(i as int),
            decreases before.core_variables - i,
        {
            let ghost so_far = module;
            proof {
                assert(names.take(i as int + 1) =~= names.take(i as int).push(names[i as int]));
                assert(values.take(i as int + 1) =~= values.take(i as int).push(values[i as int]));
                assert(!names.take(i as int).contains(names[i as int])) by {
                    if names.take(i as int).contains(names[i as int]) {
                        let k = choose|k: int|
                            0 <= k < i && names.take(i as int)[k] == names[i as int];
                        crate::symbol::law_numbers_tell_names_apart(
                            &before.modules@[0].names,
                            k,
                            i as int,
                        );
                    }
                }
            }
            let value = self.modules[0].values[i];
            match self.modules[0].names.name(i) {
                Some(variable) => {
                    module.define(variable, value);
                },
                None => {},
            }
            i = i + 1;
        }
        let index: usize = self.modules.len();
        self.modules.push(module);
        let ghost added = *self;
        self.register_module(name, index);
        proof {
            assert(self.modules@.take(index as int) =~= before.modules@);
            assert forall|other: Seq<char>| other != name@ implies #[trigger] self.spec_module_named(
                other,
            ) == before.spec_module_named(other) by {
                assert(added.spec_module_named(other) == before.spec_module_named(other));
            }
        }
        index
    }

    /// Make the code of a module something that can be called.
    pub fn module_closure(&mut self, chunk: Rc<Chunk>, name: &str, module: usize) -> (id: ObjectId)
        requires
            old(self).wf(),
            old(self).heap.has_slots(2),
        ensures
            final(self).wf(),
            *final(self) == (Vm { heap: final(self).heap, ..*old(self) }),
            final(self).has_module_closure(old(self), id, chunk, name@, module),
    {
        let ghost before = *self;
        proof {
            before.heap.lemma_slots(2, 1);
        }
        let function = self.heap.allocate(
            Object::Fn(
                Box::new(
                    ObjFn {
                        chunk,
                        arity: 0,
                        num_upvalues: 0,
                        name: name.to_owned(),
                        field_offset: 0,
                        super_class: None,
                        owner_class: None,
                        module,
                    },
                ),
            ),
        );
        let ghost mid = *self;
        proof {
            assert(mid.heap.has_slots(1));
        }
        let upvalues: Vec<ObjectId> = Vec::new();
        let id = self.heap.allocate(Object::Closure(ObjClosure { function, upvalues }));
        proof {
            assert forall|n: int| #[trigger] before.heap.has_slots(n) implies self.heap.has_slots(
                n - 2,
            ) by {
                assert(mid.heap.has_slots(n - 1));
            }
        }
        id
    }

    /// Whether a machine is an earlier one with a module's code added as a
    /// function without arguments, and a closure over it.
    pub open spec fn has_module_closure(
        &self,
        before: &Vm,
        id: ObjectId,
        chunk: Rc<Chunk>,
        name: Seq<char>,
        module: usize,
    ) -> bool {
        let closure = self.heap@.closure(id)->0;
        let function = self.heap@.function(closure.function)->0;
        &&& self.heap@.closure(id) is Some
        &&& self.heap@.function(closure.function) is Some
        &&& !before.heap@.has(id) && !before.heap@.has(closure.function)
        &&& closure.upvalues@.len() == 0
        &&& function.chunk == chunk
        &&& function.arity == 0
        &&& function.num_upvalues == 0
        &&& function.name@ == name
        &&& function.field_offset == 0
        &&& function.super_class is None
        &&& function.owner_class is None
        &&& function.module == module
        &&& self.heap@ == before.heap@.with(
            closure.function,
            Object::Fn(Box::new(function)),
            Seq::empty(),
        ).with(id, Object::Closure(closure), Seq::empty())
        &&& forall|other: ObjectId| #[trigger]
            self.heap.spec_young(other) == (before.heap.spec_young(other) || other == id || other
                == closure.function)
        &&& forall|other: ObjectId| #[trigger]
            self.heap.spec_remembered(other) == before.heap.spec_remembered(other)
        &&& forall|n: int| #[trigger] before.heap.has_slots(n) ==> self.heap.has_slots(n - 2)
        &&& self.heap.chunks() == before.heap.chunks()
        &&& self.heap.stats().live == before.heap.stats().live + 2
    }

    /// What importing a variable gives, or why it gives nothing.
    pub open spec fn spec_imported(&self, module: Seq<char>, variable: Seq<char>) -> Result<
        Value,
        Seq<char>,
    > {
        match self.spec_module_named(module) {
            None => Err(not_loaded_message(module)),
            Some(from) => match self.modules@[from as int].spec_get(variable) {
                Some(value) => Ok(value),
                None => Err(no_variable_message(variable, module)),
            },
        }
    }

    /// Import a variable of a module.
    pub fn imported_variable(&self, module: &str, variable: &str, line: u16) -> (r: Result<
        Value,
        RuntimeError,
    >)
        requires
            self.wf(),
        ensures
            match self.spec_imported(module@, variable@) {
                Ok(value) => r matches Ok(given) && given == value,
                Err(message) => r matches Err(error) && error.message@ == message && error.line
                    == line,
            },
    {
        let from: usize = match self.module_named(module) {
            None => {
                return Err(not_loaded(module, line));
            },
            Some(from) => from,
        };
        match self.modules[from].get(variable) {
            Some(value) => Ok(value),
            None => {
                let mut message: String = "Could not find a variable named '".to_owned();
                message.append(variable);
                message.append("' in module '");
                message.append(module);
                message.append("'.");
                Err(RuntimeError { message, line })
            },
        }
    }

    /// What the program has printed.
    pub fn output_str(&self) -> (text: &str)
        ensures
            text@ == super::lookup::text_or(self.output@, "<not utf-8>"@),
    {
        match text_of(self.output.as_slice()) {
            Some(text) => text,
            None => "<not utf-8>",
        }
    }
}

/// A module's variables start out as the core library's.
pub proof fn law_module_has_the_core(before: Vm, after: Vm, index: int, name: Seq<char>)
    requires
        before.wf(),
        after.wf(),
        before.modules@.len() > 0,
        before.core_variables <= before.modules@[0].names@.len(),
        0 <= index < after.modules@.len(),
        after.modules@[index].names@ == before.modules@[0].names@.take(
            before.core_variables as int,
        ),
        after.modules@[index].values@ == before.modules@[0].values@.take(
            before.core_variables as int,
        ),
        before.modules@[0].names@.take(before.core_variables as int).contains(name),
    ensures
        after.modules@[index].spec_get(name) == before.modules@[0].spec_get(name),
{
    let names = before.modules@[0].names@;
    let seeded = names.take(before.core_variables as int);
    let at = seeded.index_of(name);
    assert(seeded[at] == name);
    assert(names[at] == name);
    crate::symbol::lemma_index(&before.modules@[0].names, name, at);
    crate::symbol::lemma_index(&after.modules@[index].names, name, at);
}

} // verus!
