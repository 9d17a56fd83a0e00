//! Making classes and binding methods to them.

use vstd::prelude::*;
use vstd::string::*;
use vstd::utf8::*;

use super::{RuntimeError, Vm};
use crate::handle::ObjectId;
use crate::heap::HeapModel;
use crate::object::{closure_entry, ObjClass, ObjFn, ObjString, Object};
use crate::value::Value;

verus! {

/// The most fields a class may have, inherited ones among them.
pub const MAX_CLASS_FIELDS: usize = 255;

/// What is said of a class that may not be inherited from.
pub open spec fn sealed_message(child: Seq<char>, parent: Seq<char>) -> Seq<char> {
    "Class '"@ + child + "' cannot inherit from built-in class '"@ + parent + "'."@
}

/// What is said of a class with too many fields.
pub open spec fn fields_message(child: Seq<char>) -> Seq<char> {
    "Class '"@ + child + "' may not have more than 255 fields, including inherited ones."@
}

/// How many fields of a class an heir has before its own.
pub open spec fn fields_of_class(class: ObjClass) -> int {
    if class.num_fields > 0 {
        class.num_fields as int
    } else {
        0
    }
}

/// The error with a message that quotes one name.
fn quoting(before: &str, name: &str, after: &str) -> (error: RuntimeError)
    ensures
        error.message@ == before@ + name@ + after@,
        error.line == 0,
{
    let mut message: String = before.to_owned();
    message.append(name);
    message.append(after);
    RuntimeError { message, line: 0 }
}

/// Whether a handle is in a list.
pub fn is_listed(ids: &Vec<ObjectId>, id: ObjectId) -> (r: bool)
    ensures
        r == ids@.contains(id),
{
    let mut i: usize = 0;
    while i < ids.len()
        invariant
            i <= ids@.len(),
            forall|k: int| 0 <= k < i ==> ids@[k] != id,
        decreases ids@.len() - i,
    {
        if ids[i] == id {
            return true;
        }
        i = i + 1;
    }
    false
}

/// A function as it is once it belongs to a method of a class.
pub open spec fn bound(
    function: ObjFn,
    offset: usize,
    superclass: Option<ObjectId>,
    owner: ObjectId,
) -> ObjFn {
    ObjFn {
        field_offset: offset,
        super_class: superclass,
        owner_class: Some(owner),
        ..function
    }
}

/// The handles of functions.
pub open spec fn functions(heap: HeapModel) -> Set<ObjectId> {
    Set::new(|id: ObjectId| heap.function(id) is Some)
}

/// Whether a function is part of another: itself, or a constant of one that
/// is.
pub open spec fn part_of(heap: HeapModel, whole: ObjectId, id: ObjectId) -> bool {
    heap.reaches(functions(heap), set![whole], id)
}

/// Whether the function in a slot of its table is part of another.
pub open spec fn slot_part_of(heap: HeapModel, whole: ObjectId, index: u32) -> bool {
    exists|id: ObjectId| #[trigger] part_of(heap, whole, id) && id.spec_index() == index
}

/// What the heap holds once a function and all its parts belong to a method of
/// a class.
pub open spec fn with_bound(
    heap: HeapModel,
    whole: ObjectId,
    offset: usize,
    superclass: Option<ObjectId>,
    owner: ObjectId,
) -> HeapModel {
    HeapModel {
        functions: heap.functions.map_entries(
            |index: u32, function: Box<ObjFn>|
                if slot_part_of(heap, whole, index) {
                    Box::new(bound(*function, offset, superclass, owner))
                } else {
                    function
                },
        ),
        ..heap
    }
}

/// Whether a run of handles has one for a slot.
pub open spec fn slot_in(ids: Seq<ObjectId>, index: u32) -> bool {
    exists|id: ObjectId| #[trigger] ids.contains(id) && id.spec_index() == index
}

/// What the heap holds once the functions in a list belong to a method.
spec fn marked(
    heap: HeapModel,
    seen: Seq<ObjectId>,
    offset: usize,
    superclass: Option<ObjectId>,
    owner: ObjectId,
) -> HeapModel {
    HeapModel {
        functions: heap.functions.map_entries(
            |index: u32, function: Box<ObjFn>|
                if slot_in(seen, index) {
                    Box::new(bound(*function, offset, superclass, owner))
                } else {
                    function
                },
        ),
        ..heap
    }
}

/// Belonging to a method changes neither which functions there are nor what
/// they refer to.
proof fn lemma_marked(
    heap: HeapModel,
    seen: Seq<ObjectId>,
    offset: usize,
    superclass: Option<ObjectId>,
    owner: ObjectId,
)
    ensures
        forall|id: ObjectId| #[trigger]
            marked(heap, seen, offset, superclass, owner).function(id) is Some == heap.function(
                id,
            ) is Some,
        forall|id: ObjectId|
            heap.has(id) ==> #[trigger] marked(heap, seen, offset, superclass, owner).refs(id)
                == heap.refs(id),
{
}

impl Vm {
    /// Whether a class is one of those that may not be inherited from.
    pub open spec fn spec_is_sealed(&self, class: ObjectId) -> bool {
        ||| class == self.bool_class
        ||| class == self.class_class
        ||| class == self.fiber_class
        ||| class == self.fn_class
        ||| class == self.list_class
        ||| class == self.map_class
        ||| class == self.null_class
        ||| class == self.num_class
        ||| class == self.range_class
        ||| class == self.string_class
    }

    /// Whether a class is one of those that may not be inherited from.
    pub fn is_sealed(&self, class: ObjectId) -> (r: bool)
        ensures
            r == self.spec_is_sealed(class),
    {
        class == self.bool_class || class == self.class_class || class == self.fiber_class || class
            == self.fn_class || class == self.list_class || class == self.map_class || class
            == self.null_class || class == self.num_class || class == self.range_class || class
            == self.string_class
    }

    /// Why a class cannot be made, where what is inherited decides it.
    pub open spec fn class_refused(
        &self,
        name: Value,
        superclass: Value,
        child: Seq<char>,
    ) -> Option<Seq<char>> {
        match superclass.spec_as_object() {
            None => Some("Class must inherit from a class."@),
            Some(id) => if self.heap@.class(id) is None {
                Some("Class must inherit from a class."@)
            } else if self.spec_is_sealed(id) {
                Some(sealed_message(child, self.spec_class_name(id)))
            } else if name.spec_as_object() is None {
                Some("Class name must be a string."@)
            } else {
                None
            },
        }
    }

    /// The text a class's name holds, or a question mark.
    pub open spec fn spec_name_text(&self, name: Value) -> Seq<char> {
        match self.spec_string(name) {
            Some(bytes) => super::lookup::text_or(bytes, "?"@),
            None => "?"@,
        }
    }

    /// Whether a machine is an earlier one with a class made, or why not.
    pub open spec fn class_made(&self, before: &Vm, name: Value, superclass: Value, declared: usize, child: Seq<char>, r: Result<Value, RuntimeError>) -> bool {
        &&& *self == (Vm { heap: self.heap, ..*before })
        &&& match before.class_refused(name, superclass, child) {
            Some(message) => super::fails(r, message) && *self == *before,
            None => {
                let parent = superclass.spec_as_object()->0;
                let fields = fields_of_class(before.heap@.class(parent)->0) + declared;
                if fields > MAX_CLASS_FIELDS {
                    &&& super::fails(r, fields_message(child))
                    &&& self.heap@.keeps(before.heap@)
                } else {
                    &&& r matches Ok(value)
                    &&& value.spec_as_object() matches Some(id)
                    &&& value == Value::object(id)
                    &&& self.made_class(before, id, name, parent, fields)
                }
            },
        }
    }

    /// Make a class and its metaclass. `child` is how the name is shown where
    /// the class is refused.
    pub fn make_class(
        &mut self,
        name: Value,
        superclass: Value,
        declared: usize,
        child: &str,
    ) -> (r: Result<Value, RuntimeError>)
        requires
            old(self).wf(),
            old(self).heap.has_slots(3),
            declared <= u8::MAX,
        ensures
            final(self).wf(),
            final(self).class_made(old(self), name, superclass, declared, child@, r),
    {
        broadcast use crate::value::law_object_round_trip;

        let parent = match superclass.as_object() {
            None => {
                return Err(RuntimeError::new("Class must inherit from a class."));
            },
            Some(id) => id,
        };
        let inherited: usize = match self.heap.class(parent) {
            None => {
                return Err(RuntimeError::new("Class must inherit from a class."));
            },
            Some(class) => if class.num_fields > 0 {
                class.num_fields as usize
            } else {
                0
            },
        };
        if self.is_sealed(parent) {
            let mut start: String = "Class '".to_owned();
            start.append(child);
            start.append("' cannot inherit from built-in class '");
            let class_name = self.class_name(parent);
            return Err(quoting(start.as_str(), class_name.as_str(), "'."));
        }
        let name_id = match name.as_object() {
            None => {
                return Err(RuntimeError::new("Class name must be a string."));
            },
            Some(id) => id,
        };
        let mut text: String = match self.string_at(name) {
            Some(text) => text.to_owned(),
            None => "?".to_owned(),
        };
        text.append(" metaclass");
        let ghost before = *self;
        proof {
            before.heap.lemma_slots(3, 1);
        }
        let meta_name = self.heap.allocate(Object::String(ObjString::from_text(text.as_str())));
        let ghost named = *self;
        proof {
            assert(named.heap.has_slots(2));
            named.heap.lemma_slots(2, 1);
        }
        let metaclass = self.heap.allocate(
            Object::Class(Box::new(ObjClass::new(meta_name, Some(self.class_class)))),
        );
        let ghost meta = *self;
        proof {
            assert(meta.heap.has_slots(1));
        }
        if inherited + declared > MAX_CLASS_FIELDS {
            return Err(
                quoting(
                    "Class '",
                    child,
                    "' may not have more than 255 fields, including inherited ones.",
                ),
            );
        }
        let mut class = ObjClass::new(name_id, Some(parent));
        class.num_fields = (inherited + declared) as i32;
        class.metaclass = Some(metaclass);
        let id = self.heap.allocate(Object::Class(Box::new(class)));
        let ghost made = *self;
        proof {
            crate::handle::lemma_parts_determine(id);
            crate::handle::lemma_parts_determine(metaclass);
            assert(made.heap@.has(metaclass) && meta.heap@.has(metaclass));
        }
        self.inherit_methods(id, parent);
        let ghost heir = *self;
        let root = self.class_class;
        self.inherit_methods(metaclass, root);
        proof {
            assert(!made.told_of_inherited(id, parent));
            assert(!heir.told_of_inherited(metaclass, root));
            assert(made.heap@.entries(id) =~= Seq::<u32>::empty());
            assert(made.heap@.entries(parent) == before.heap@.entries(parent));
            assert(heir.heap@.entries(metaclass) =~= Seq::<u32>::empty());
            assert(heir.heap@.entries(root) == before.heap@.entries(root));
            assert(self.heap@.classes =~= before.heap@.classes.insert(
                metaclass.spec_index(),
                crate::object::ClassRef::Owned(Box::new(self.heap@.class(metaclass)->0)),
            ).insert(
                id.spec_index(),
                crate::object::ClassRef::Owned(Box::new(self.heap@.class(id)->0)),
            ));
        }
        Ok(Value::object(id))
    }

    /// Add the functions among another function's constants to a list.
    fn push_parts(&self, id: ObjectId, found: &mut Vec<ObjectId>)
        requires
            self.wf(),
            self.heap@.function(id) is Some,
        ensures
            forall|x: ObjectId| #[trigger]
                final(found)@.contains(x) <==> (old(found)@.contains(x) || (self.heap@.function(
                    x,
                ) is Some && self.heap@.refs(id).contains(x))),
    {
        let ghost before = found@;
        match self.heap.function(id) {
            None => {},
            Some(function) => {
                let ghost constants = function.chunk.constants@;
                let mut i: usize = 0;
                while i < function.chunk.constants.len()
                    invariant
                        self.wf(),
                        self.heap@.function(id) == Some(*function),
                        constants == function.chunk.constants@,
                        i <= constants.len(),
                        forall|x: ObjectId| #[trigger]
                            found@.contains(x) <==> (before.contains(x) || (self.heap@.function(
                                x,
                            ) is Some && exists|k: int|
                                0 <= k < i && (#[trigger] constants[k]).spec_as_object() == Some(
                                    x,
                                ))),
                    decreases constants.len() - i,
                {
                    let ghost earlier = found@;
                    match function.chunk.constants[i].as_object() {
                        None => {},
                        Some(part) => {
                            match self.heap.function(part) {
                                None => {},
                                Some(_) => {
                                    found.push(part);
                                    proof {
                                        crate::lists::lemma_pushed(earlier, part);
                                    }
                                },
                            }
                        },
                    }
                    proof {
                        assert forall|x: ObjectId| #[trigger]
                            found@.contains(x) <==> (before.contains(x) || (self.heap@.function(
                                x,
                            ) is Some && exists|k: int|
                                0 <= k < i + 1 && (#[trigger] constants[k]).spec_as_object()
                                    == Some(x))) by {
                            assert(constants[i as int] == constants[i as int]);
                        }
                    }
                    i = i + 1;
                }
                proof {
                    assert forall|x: ObjectId| #[trigger]
                        found@.contains(x) <==> (before.contains(x) || (self.heap@.function(
                            x,
                        ) is Some && self.heap@.refs(id).contains(x))) by {
                        crate::heap::laws::lemma_values_refs(constants, x);
                    }
                }
            },
        }
    }

    /// Tell a closure's function, and every function inside it, where their
    /// fields start, where `super` looks, and which class they are of.
    pub fn set_field_offset(
        &mut self,
        closure: ObjectId,
        offset: usize,
        superclass: Option<ObjectId>,
        owner: ObjectId,
    )
        requires
            old(self).wf(),
        ensures
            final(self).wf(),
            *final(self) == (Vm { heap: final(self).heap, ..*old(self) }),
            final(self).heap.same_books(&old(self).heap),
            final(self).heap@ == match old(self).heap@.closure(closure) {
                Some(closure) => with_bound(
                    old(self).heap@,
                    closure.function,
                    offset,
                    superclass,
                    owner,
                ),
                None => old(self).heap@,
            },
    {
        let ghost before = *self;
        let whole = match self.heap.closure(closure) {
            None => {
                return;
            },
            Some(closure) => closure.function,
        };
        let ids: Vec<ObjectId> = self.heap.ids();
        let mut gray: Vec<ObjectId> = Vec::new();
        let mut seen: Vec<ObjectId> = Vec::new();
        match self.heap.function(whole) {
            None => {},
            Some(_) => {
                gray.push(whole);
                proof {
                    before.heap@.lemma_root_reached(functions(before.heap@), set![whole], whole);
                }
            },
        }
        proof {
            assert(gray@ =~= if before.heap@.function(whole) is Some {
                seq![whole]
            } else {
                Seq::empty()
            });
            assert forall|x: ObjectId| gray@.contains(x) implies #[trigger] part_of(
                before.heap@,
                whole,
                x,
            ) by {}
            if before.heap@.function(whole) is Some {
                assert(gray@[0] == whole);
                assert(gray@.contains(whole));
            }
            assert(self.heap@.functions =~= marked(
                before.heap@,
                seen@,
                offset,
                superclass,
                owner,
            ).functions);
        }
        while gray.len() > 0
            invariant
                before.wf(),
                self.wf(),
                *self == (Vm { heap: self.heap, ..before }),
                self.heap.same_books(&before.heap),
                self.heap@ == marked(before.heap@, seen@, offset, superclass, owner),
                forall|x: ObjectId| #[trigger] ids@.contains(x) <==> before.heap@.has(x),
                forall|x: ObjectId|
                    #![trigger part_of(before.heap@, whole, x)]
                    gray@.contains(x) || seen@.contains(x) ==> part_of(before.heap@, whole, x),
                forall|x: ObjectId|
                    gray@.contains(x) || seen@.contains(x) ==> #[trigger] before.heap@.function(
                        x,
                    ) is Some,
                forall|a: ObjectId, b: ObjectId|
                    seen@.contains(a) && #[trigger] before.heap@.refs(a).contains(b)
                        && before.heap@.function(b) is Some ==> seen@.contains(b)
                        || gray@.contains(b),
                before.heap@.function(whole) is Some ==> seen@.contains(whole)
                    || gray@.contains(whole),
                seen@.no_duplicates(),
                seen@.len() <= ids@.len(),
            decreases ids@.len() - seen@.len(), gray@.len(),
        {
            let ghost pending = gray@;
            let ghost done = seen@;
            let ghost mid = *self;
            let id = match gray.pop() {
                Some(id) => id,
                None => {
                    return;
                },
            };
            proof {
                assert(pending =~= gray@.push(id));
                crate::lists::lemma_pushed(gray@, id);
                assert(pending.contains(id));
            }
            if !is_listed(&seen, id) {
                proof {
                    lemma_marked(before.heap@, done, offset, superclass, owner);
                    crate::lists::lemma_pushed(done, id);
                    assert forall|x: ObjectId| #[trigger] done.push(id).contains(x) implies ids@.contains(
                        x,
                    ) by {
                        assert(before.heap@.function(x) is Some);
                        assert(before.heap@.has(x));
                    }
                    crate::lists::lemma_within(done.push(id), ids@);
                }
                self.push_parts(id, &mut gray);
                seen.push(id);
                match self.heap.function_mut(id) {
                    Some(function) => {
                        function.field_offset = offset;
                        function.super_class = superclass;
                        function.owner_class = Some(owner);
                    },
                    None => {},
                }
                proof {
                    assert(mid.heap@.refs(id) == before.heap@.refs(id));
                    assert forall|x: ObjectId| gray@.contains(x) implies #[trigger] part_of(
                        before.heap@,
                        whole,
                        x,
                    ) by {
                        assert(part_of(before.heap@, whole, id));
                        if !pending.contains(x) {
                            before.heap@.lemma_step_reached(
                                functions(before.heap@),
                                set![whole],
                                id,
                                x,
                            );
                        }
                    }
                    assert(seen@.contains(id));
                    assert(slot_in(seen@, id.spec_index()));
                    assert forall|index: u32| index != id.spec_index() implies #[trigger] slot_in(
                        seen@,
                        index,
                    ) == slot_in(done, index) by {
                        if slot_in(done, index) {
                            let x = choose|x: ObjectId| #[trigger]
                                done.contains(x) && x.spec_index() == index;
                            assert(seen@.contains(x));
                        }
                    }
                    if slot_in(done, id.spec_index()) {
                        let x = choose|x: ObjectId| #[trigger]
                            done.contains(x) && x.spec_index() == id.spec_index();
                        crate::handle::lemma_parts_determine(id);
                        assert(before.heap@.function(x) is Some);
                    }
                    assert(self.heap@.functions =~= marked(
                        before.heap@,
                        seen@,
                        offset,
                        superclass,
                        owner,
                    ).functions);
                }
            }
        }
        proof {
            assert forall|index: u32| #[trigger] slot_part_of(before.heap@, whole, index)
                == slot_in(seen@, index) by {
                if slot_in(seen@, index) {
                    let x = choose|x: ObjectId| #[trigger]
                        seen@.contains(x) && x.spec_index() == index;
                    assert(part_of(before.heap@, whole, x));
                }
                if slot_part_of(before.heap@, whole, index) {
                    let x = choose|x: ObjectId| #[trigger]
                        part_of(before.heap@, whole, x) && x.spec_index() == index;
                    let closed = Set::new(|id: ObjectId| seen@.contains(id));
                    before.heap@.lemma_closed_holds(
                        functions(before.heap@),
                        set![whole],
                        closed,
                        x,
                    );
                    assert(seen@.contains(x));
                }
            }
            assert(self.heap@.functions =~= with_bound(
                before.heap@,
                whole,
                offset,
                superclass,
                owner,
            ).functions);
        }
    }

    /// Where a method goes: to the class, or to its metaclass for a static
    /// one.
    pub open spec fn method_target(&self, class: ObjectId, is_static: bool) -> ObjectId {
        match self.heap@.class(class) {
            Some(found) => match found.metaclass {
                Some(metaclass) => if is_static {
                    metaclass
                } else {
                    class
                },
                None => class,
            },
            None => class,
        }
    }

    /// Whether a machine is an earlier one with a method bound, or why not.
    pub open spec fn method_bound(&self, before: &Vm, class: Value, body: Value, symbol: usize, is_static: bool, r: Result<(), RuntimeError>) -> bool {
        &&& *self == (Vm { heap: self.heap, ..*before })
        &&& match (class.spec_as_object(), body.spec_as_object()) {
            (None, _) => super::fails(r, "Not a class."@) && *self == *before,
            (Some(_), None) => {
                &&& super::fails(r, "Method body is not a closure."@)
                &&& *self == *before
            },
            (Some(id), Some(closure)) => {
                let target = before.method_target(id, is_static);
                let superclass = before.heap@.superclass(target);
                let told = match before.heap@.closure(closure) {
                    Some(closure) => with_bound(
                        before.heap@,
                        closure.function,
                        before.inherited_fields(target) as usize,
                        superclass,
                        id,
                    ),
                    None => before.heap@,
                };
                &&& r is Ok
                &&& self.heap.stats() == before.heap.stats()
                &&& self.heap.same_room(&before.heap)
                &&& self.heap.barrier_told(
                    &before.heap,
                    target,
                    Value::object(closure),
                )
                &&& if before.heap@.definable(target) {
                    let class = self.heap@.class(target)->0;
                    &&& self.heap@ == told.with_class(target, class)
                    &&& class.same_but_methods(&before.heap@.class(target)->0)
                    &&& class.methods is Owned
                    &&& class.methods.entries() == crate::object::defined(
                        before.heap@.entries(target),
                        symbol as int,
                        crate::object::spec_closure_entry(closure),
                    )
                } else {
                    self.heap@ == told
                }
            },
        }
    }

    /// Bind a method to a class under a symbol.
    ///
    /// The body learns where its fields start, which is after those of the
    /// class inherited from: only now is it known which class that is.
    pub fn bind_method(
        &mut self,
        class: Value,
        body: Value,
        symbol: usize,
        is_static: bool,
    ) -> (r: Result<(), RuntimeError>)
        requires
            old(self).wf(),
            symbol < usize::MAX,
        ensures
            final(self).wf(),
            final(self).method_bound(old(self), class, body, symbol, is_static, r),
    {
        let id = match class.as_object() {
            None => {
                return Err(RuntimeError::new("Not a class."));
            },
            Some(id) => id,
        };
        let closure = match body.as_object() {
            None => {
                return Err(RuntimeError::new("Method body is not a closure."));
            },
            Some(closure) => closure,
        };
        let mut target = id;
        if is_static {
            match self.heap.class(id) {
                Some(class) => {
                    match class.metaclass {
                        Some(metaclass) => {
                            target = metaclass;
                        },
                        None => {},
                    }
                },
                None => {},
            }
        }
        let superclass: Option<ObjectId> = match self.heap.class(target) {
            Some(class) => class.superclass,
            None => None,
        };
        let inherited: usize = match superclass {
            Some(superclass) => match self.heap.class(superclass) {
                Some(class) => if class.num_fields > 0 {
                    class.num_fields as usize
                } else {
                    0
                },
                None => 0,
            },
            None => 0,
        };
        let ghost before = *self;
        self.set_field_offset(closure, inherited, superclass, id);
        let ghost told = *self;
        match self.heap.class_mut(target) {
            Some(class) => {
                class.define(symbol, closure_entry(closure));
            },
            None => {},
        }
        proof {
            if !before.heap@.definable(target) {
                assert(self.heap@.classes =~= told.heap@.classes);
            }
        }
        self.heap.wrote(target, Value::object(closure));
        Ok(())
    }

    /// How many fields an instance of a class has from the class inherited
    /// from.
    pub open spec fn inherited_fields(&self, class: ObjectId) -> int {
        match self.heap@.superclass(class) {
            Some(superclass) => match self.heap@.class(superclass) {
                Some(superclass) => fields_of_class(superclass),
                None => 0,
            },
            None => 0,
        }
    }

    /// Whether a machine is an earlier one with a class and its metaclass
    /// added.
    pub open spec fn made_class(
        &self,
        before: &Vm,
        id: ObjectId,
        name: Value,
        parent: ObjectId,
        fields: int,
    ) -> bool {
        let class = self.heap@.class(id)->0;
        let metaclass = class.metaclass->0;
        let meta = self.heap@.class(metaclass)->0;
        let string = self.heap@.string(meta.name)->0;
        &&& self.heap@.class(id) is Some
        &&& class.metaclass is Some
        &&& self.heap@.class(metaclass) is Some
        &&& self.heap@.string(meta.name) is Some
        &&& !before.heap@.has(id) && !before.heap@.has(metaclass) && !before.heap@.has(meta.name)
        &&& id != metaclass
        &&& class.name == name.spec_as_object()->0
        &&& class.superclass == Some(parent)
        &&& class.num_fields == fields
        &&& class.attributes == Value::null()
        &&& class.static_fields@.len() == 0
        &&& class.methods is Owned
        &&& class.methods.entries() == super::inherit::merged(
            Seq::empty(),
            before.heap@.entries(parent),
        )
        &&& meta.superclass == Some(before.class_class)
        &&& meta.num_fields == 0
        &&& meta.metaclass is None
        &&& meta.attributes == Value::null()
        &&& meta.static_fields@.len() == 0
        &&& meta.methods is Owned
        &&& meta.methods.entries() == super::inherit::merged(
            Seq::empty(),
            before.heap@.entries(before.class_class),
        )
        &&& string.wf()
        &&& string.bytes@ == encode_utf8(before.spec_name_text(name) + " metaclass"@)
        &&& self.heap@ == before.heap@.with(
            meta.name,
            Object::String(string),
            Seq::empty(),
        ).with_class(metaclass, meta).with_class(id, class)
        &&& forall|other: ObjectId| #[trigger]
            self.heap.spec_young(other) == (before.heap.spec_young(other) || other == id || other
                == metaclass || other == meta.name)
        &&& forall|other: ObjectId| #[trigger]
            self.heap.spec_remembered(other) == before.heap.spec_remembered(other)
        &&& forall|n: int| #[trigger] before.heap.has_slots(n) ==> self.heap.has_slots(n - 3)
        &&& self.heap.chunks() == before.heap.chunks()
        &&& self.heap.stats().live == before.heap.stats().live + 3
    }
}

} // verus!
