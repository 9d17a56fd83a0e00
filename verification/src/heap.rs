//! The object tables.
//!
//! Every heap object lives in the table of its type, and every reference to
//! one is a handle that names the type and the slot. Nothing outside this
//! module learns how an object's lifetime is decided: a caller asks for an
//! object by handle and gets it or does not.

pub mod census;
pub mod collector;
pub mod compaction;
pub mod garbage;
pub mod generations;
pub mod graph;
pub mod instances;
pub mod laws;
pub mod marking;
pub mod profile;
pub mod settings;
pub mod tracing_laws;

pub use self::profile::Profile;
pub use self::settings::Collection;

use vstd::prelude::*;

use crate::fields::{FieldArena, MAX_CHUNKS};
use crate::handle::ObjectId;
use crate::object::{
    ClassRef, ObjClass, ObjClosure, ObjFiber, ObjFn, ObjInstance, ObjList, ObjMap, ObjRange,
    ObjString, ObjUpvalue, Object, ObjectType, Trace,
};
use crate::table::{Table, MAX_SLOTS};
use crate::value::Value;

verus! {

/// The smallest ceiling on floating garbage that still makes progress.
pub const MIN_HEADROOM: usize = 256;

/// How much the live set may grow before the first collection.
pub const INITIAL_THRESHOLD: usize = 4096;

/// The live set is allowed to reach this multiple of its size after a
/// collection before collecting again.
pub const GROWTH_NUMERATOR: usize = 3;

/// What `GROWTH_NUMERATOR` is divided by.
pub const GROWTH_DENOMINATOR: usize = 2;

/// What an instance is of, and what it holds.
pub struct InstanceModel {
    pub class: ObjectId,
    pub fields: Seq<Value>,
}

/// What the heap holds, by type and slot.
pub struct HeapModel {
    pub classes: Map<u32, ClassRef>,
    pub closures: Map<u32, ObjClosure>,
    pub functions: Map<u32, Box<ObjFn>>,
    /// Instances: their class and their fields.
    pub instances: Map<u32, InstanceModel>,
    pub lists: Map<u32, ObjList>,
    pub maps: Map<u32, ObjMap>,
    pub ranges: Map<u32, ObjRange>,
    pub strings: Map<u32, ObjString>,
    pub upvalues: Map<u32, ObjUpvalue>,
    pub fibers: Map<u32, Box<ObjFiber>>,
}

/// A part of a part is a part.
proof fn lemma_submap<K, V>(a: Map<K, V>, b: Map<K, V>, c: Map<K, V>)
    requires
        a.submap_of(b),
        b.submap_of(c),
    ensures
        a.submap_of(c),
{
    assert forall|k: K| #[trigger] a.dom().contains(k) implies c.dom().contains(k) && c[k]
        == a[k] by {
        assert(b.dom().contains(k));
    }
}

impl HeapModel {
    /// Whether there is an object under a handle.
    pub open spec fn has(self, id: ObjectId) -> bool {
        match ObjectType::spec_from_tag(id.spec_tag()) {
            Some(ObjectType::Class) => self.classes.contains_key(id.spec_index()),
            Some(ObjectType::Closure) => self.closures.contains_key(id.spec_index()),
            Some(ObjectType::Fn) => self.functions.contains_key(id.spec_index()),
            Some(ObjectType::Instance) => self.instances.contains_key(id.spec_index()),
            Some(ObjectType::List) => self.lists.contains_key(id.spec_index()),
            Some(ObjectType::MapObject) => self.maps.contains_key(id.spec_index()),
            Some(ObjectType::Range) => self.ranges.contains_key(id.spec_index()),
            Some(ObjectType::String) => self.strings.contains_key(id.spec_index()),
            Some(ObjectType::Upvalue) => self.upvalues.contains_key(id.spec_index()),
            Some(ObjectType::Fiber) => self.fibers.contains_key(id.spec_index()),
            None => false,
        }
    }

    /// The least number of bytes that the object under a handle is charged for:
    /// its slot and what it holds.
    pub open spec fn least_at(self, id: ObjectId) -> nat
        recommends
            self.has(id),
    {
        let i = id.spec_index();
        match ObjectType::spec_from_tag(id.spec_tag()) {
            Some(ObjectType::Class) => vstd::layout::size_of::<Option<ClassRef>>()
                + self.classes[i].least_contents(),
            Some(ObjectType::Closure) => vstd::layout::size_of::<Option<ObjClosure>>()
                + self.closures[i].least_contents(),
            Some(ObjectType::Fn) => vstd::layout::size_of::<Option<Box<ObjFn>>>()
                + self.functions[i].least_contents(),
            Some(ObjectType::Instance) => vstd::layout::size_of::<Option<ObjInstance>>()
                + self.instances[i].fields.len() * vstd::layout::size_of::<Value>(),
            Some(ObjectType::List) => vstd::layout::size_of::<Option<ObjList>>()
                + self.lists[i].least_contents(),
            Some(ObjectType::MapObject) => vstd::layout::size_of::<Option<ObjMap>>()
                + self.maps[i].least_contents(),
            Some(ObjectType::Range) => vstd::layout::size_of::<Option<ObjRange>>()
                + self.ranges[i].least_contents(),
            Some(ObjectType::String) => vstd::layout::size_of::<Option<ObjString>>()
                + self.strings[i].least_contents(),
            Some(ObjectType::Upvalue) => vstd::layout::size_of::<Option<ObjUpvalue>>()
                + self.upvalues[i].least_contents(),
            Some(ObjectType::Fiber) => vstd::layout::size_of::<Option<Box<ObjFiber>>>()
                + self.fibers[i].least_contents(),
            None => 0,
        }
    }

    /// Whether the object under a handle has no memory in reserve.
    pub open spec fn exact_at(self, id: ObjectId) -> bool {
        let i = id.spec_index();
        match ObjectType::spec_from_tag(id.spec_tag()) {
            Some(ObjectType::Class) => self.classes[i].exact(),
            Some(ObjectType::Fn) => true,
            Some(ObjectType::Instance) => true,
            Some(ObjectType::Range) => true,
            Some(ObjectType::Upvalue) => true,
            _ => false,
        }
    }

    /// What the object under a handle refers to, in the order it is traced.
    pub open spec fn refs(self, id: ObjectId) -> Seq<ObjectId>
        recommends
            self.has(id),
    {
        let index = id.spec_index();
        match ObjectType::spec_from_tag(id.spec_tag()) {
            Some(ObjectType::Class) => self.classes[index].referents(),
            Some(ObjectType::Closure) => self.closures[index].referents(),
            Some(ObjectType::Fn) => self.functions[index].referents(),
            Some(ObjectType::Instance) => seq![self.instances[index].class]
                + crate::object::values_refs(self.instances[index].fields),
            Some(ObjectType::List) => self.lists[index].referents(),
            Some(ObjectType::MapObject) => self.maps[index].referents(),
            Some(ObjectType::Range) => self.ranges[index].referents(),
            Some(ObjectType::String) => self.strings[index].referents(),
            Some(ObjectType::Upvalue) => self.upvalues[index].referents(),
            Some(ObjectType::Fiber) => self.fibers[index].referents(),
            None => Seq::empty(),
        }
    }

    /// Whether the object under a handle lives in the image.
    pub open spec fn permanent(self, id: ObjectId) -> bool {
        ObjectType::spec_from_tag(id.spec_tag()) == Some(ObjectType::Class)
            && self.classes.contains_key(id.spec_index())
            && self.classes[id.spec_index()] is Static
    }

    /// The class under a handle, if there is one.
    pub open spec fn class(self, id: ObjectId) -> Option<ObjClass> {
        if id.spec_tag() == ObjectType::Class.spec_tag() && self.classes.contains_key(id.spec_index()) {
            Some(self.classes[id.spec_index()].class())
        } else {
            None
        }
    }

    /// The closure under a handle, if there is one.
    pub open spec fn closure(self, id: ObjectId) -> Option<ObjClosure> {
        if id.spec_tag() == ObjectType::Closure.spec_tag() && self.closures.contains_key(id.spec_index()) {
            Some(self.closures[id.spec_index()])
        } else {
            None
        }
    }

    /// The function under a handle, if there is one.
    pub open spec fn function(self, id: ObjectId) -> Option<ObjFn> {
        if id.spec_tag() == ObjectType::Fn.spec_tag() && self.functions.contains_key(id.spec_index()) {
            Some(*self.functions[id.spec_index()])
        } else {
            None
        }
    }

    /// The fiber under a handle, if there is one.
    pub open spec fn fiber(self, id: ObjectId) -> Option<ObjFiber> {
        if id.spec_tag() == ObjectType::Fiber.spec_tag() && self.fibers.contains_key(id.spec_index()) {
            Some(*self.fibers[id.spec_index()])
        } else {
            None
        }
    }

    /// The list under a handle, if there is one.
    pub open spec fn list(self, id: ObjectId) -> Option<ObjList> {
        if id.spec_tag() == ObjectType::List.spec_tag() && self.lists.contains_key(id.spec_index()) {
            Some(self.lists[id.spec_index()])
        } else {
            None
        }
    }

    /// The map under a handle, if there is one.
    pub open spec fn map(self, id: ObjectId) -> Option<ObjMap> {
        if id.spec_tag() == ObjectType::MapObject.spec_tag() && self.maps.contains_key(id.spec_index()) {
            Some(self.maps[id.spec_index()])
        } else {
            None
        }
    }

    /// The range under a handle, if there is one.
    pub open spec fn range(self, id: ObjectId) -> Option<ObjRange> {
        if id.spec_tag() == ObjectType::Range.spec_tag() && self.ranges.contains_key(id.spec_index()) {
            Some(self.ranges[id.spec_index()])
        } else {
            None
        }
    }

    /// The string under a handle, if there is one.
    pub open spec fn string(self, id: ObjectId) -> Option<ObjString> {
        if id.spec_tag() == ObjectType::String.spec_tag() && self.strings.contains_key(id.spec_index()) {
            Some(self.strings[id.spec_index()])
        } else {
            None
        }
    }

    /// The upvalue under a handle, if there is one.
    pub open spec fn upvalue(self, id: ObjectId) -> Option<ObjUpvalue> {
        if id.spec_tag() == ObjectType::Upvalue.spec_tag() && self.upvalues.contains_key(id.spec_index()) {
            Some(self.upvalues[id.spec_index()])
        } else {
            None
        }
    }

    /// The instance under a handle, if there is one.
    pub open spec fn instance(self, id: ObjectId) -> Option<InstanceModel> {
        if id.spec_tag() == ObjectType::Instance.spec_tag() && self.instances.contains_key(
            id.spec_index(),
        ) {
            Some(self.instances[id.spec_index()])
        } else {
            None
        }
    }

    /// What the heap holds once a class of its own is as given.
    pub open spec fn with_class(self, id: ObjectId, class: ObjClass) -> HeapModel {
        HeapModel {
            classes: self.classes.insert(id.spec_index(), ClassRef::Owned(Box::new(class))),
            ..self
        }
    }

    /// The method table of a class; empty where there is no class.
    pub open spec fn entries(self, id: ObjectId) -> Seq<u32> {
        match self.class(id) {
            Some(class) => class.methods.entries(),
            None => Seq::empty(),
        }
    }

    /// The class that a class inherits from.
    pub open spec fn superclass(self, id: ObjectId) -> Option<ObjectId> {
        match self.class(id) {
            Some(class) => class.superclass,
            None => None,
        }
    }

    /// Whether a class's method table may be written.
    pub open spec fn definable(self, id: ObjectId) -> bool {
        self.class(id) matches Some(class) && class.methods is Owned && !self.permanent(id)
    }

    /// Whether everything an earlier heap held is here as it was.
    pub open spec fn keeps(self, before: HeapModel) -> bool {
        &&& before.classes.submap_of(self.classes)
        &&& before.closures.submap_of(self.closures)
        &&& before.functions.submap_of(self.functions)
        &&& before.instances.submap_of(self.instances)
        &&& before.lists.submap_of(self.lists)
        &&& before.maps.submap_of(self.maps)
        &&& before.ranges.submap_of(self.ranges)
        &&& before.strings.submap_of(self.strings)
        &&& before.upvalues.submap_of(self.upvalues)
        &&& before.fibers.submap_of(self.fibers)
    }

    /// What is kept through two steps is kept.
    pub proof fn lemma_kept_on(self, between: HeapModel, before: HeapModel)
        requires
            self.keeps(between),
            between.keeps(before),
        ensures
            self.keeps(before),
    {
        lemma_submap(before.classes, between.classes, self.classes);
        lemma_submap(before.closures, between.closures, self.closures);
        lemma_submap(before.functions, between.functions, self.functions);
        lemma_submap(before.instances, between.instances, self.instances);
        lemma_submap(before.lists, between.lists, self.lists);
        lemma_submap(before.maps, between.maps, self.maps);
        lemma_submap(before.ranges, between.ranges, self.ranges);
        lemma_submap(before.strings, between.strings, self.strings);
        lemma_submap(before.upvalues, between.upvalues, self.upvalues);
        lemma_submap(before.fibers, between.fibers, self.fibers);
    }

    /// What the heap holds once an object is put under a handle. The fields of
    /// an instance are given beside it.
    pub open spec fn with(self, id: ObjectId, object: Object, fields: Seq<Value>) -> HeapModel {
        let index = id.spec_index();
        match object {
            Object::Class(it) => HeapModel {
                classes: self.classes.insert(index, ClassRef::Owned(it)),
                ..self
            },
            Object::Closure(it) => HeapModel {
                closures: self.closures.insert(index, it),
                ..self
            },
            Object::Fn(it) => HeapModel {
                functions: self.functions.insert(index, it),
                ..self
            },
            Object::Instance(it) => HeapModel {
                instances: self.instances.insert(index, InstanceModel { class: it.class, fields }),
                ..self
            },
            Object::List(it) => HeapModel {
                lists: self.lists.insert(index, it),
                ..self
            },
            Object::MapObject(it) => HeapModel {
                maps: self.maps.insert(index, it),
                ..self
            },
            Object::Range(it) => HeapModel {
                ranges: self.ranges.insert(index, it),
                ..self
            },
            Object::String(it) => HeapModel {
                strings: self.strings.insert(index, it),
                ..self
            },
            Object::Upvalue(it) => HeapModel {
                upvalues: self.upvalues.insert(index, it),
                ..self
            },
            Object::Fiber(it) => HeapModel {
                fibers: self.fibers.insert(index, it),
                ..self
            },
        }
    }
}

/// The least number of bytes an object is charged for: its slot and what it
/// holds.
pub open spec fn least_cost(object: Object) -> nat {
    match object {
        Object::Class(it) => vstd::layout::size_of::<Option<ClassRef>>() + it.least_contents(),
        Object::Closure(it) => vstd::layout::size_of::<Option<ObjClosure>>() + it.least_contents(),
        Object::Fn(it) => vstd::layout::size_of::<Option<Box<ObjFn>>>() + it.least_contents(),
        Object::Instance(it) => vstd::layout::size_of::<Option<ObjInstance>>() + it.least_contents(),
        Object::List(it) => vstd::layout::size_of::<Option<ObjList>>() + it.least_contents(),
        Object::MapObject(it) => vstd::layout::size_of::<Option<ObjMap>>() + it.least_contents(),
        Object::Range(it) => vstd::layout::size_of::<Option<ObjRange>>() + it.least_contents(),
        Object::String(it) => vstd::layout::size_of::<Option<ObjString>>() + it.least_contents(),
        Object::Upvalue(it) => vstd::layout::size_of::<Option<ObjUpvalue>>() + it.least_contents(),
        Object::Fiber(it) => vstd::layout::size_of::<Option<Box<ObjFiber>>>() + it.least_contents(),
    }
}

/// Whether an object has nothing in reserve, so that it is charged for no more
/// than that.
pub open spec fn exact_cost(object: Object) -> bool {
    match object {
        Object::Class(it) => it.exact(),
        Object::Fn(it) => it.exact(),
        Object::Instance(it) => it.exact(),
        Object::Range(it) => it.exact(),
        Object::Upvalue(it) => it.exact(),
        _ => false,
    }
}

/// The object tables, and what the collector keeps beside them.
pub struct Heap {
    classes: Table<ClassRef>,
    closures: Table<ObjClosure>,
    functions: Table<Box<ObjFn>>,
    instances: Table<ObjInstance>,
    lists: Table<ObjList>,
    maps: Table<ObjMap>,
    ranges: Table<ObjRange>,
    strings: Table<ObjString>,
    upvalues: Table<ObjUpvalue>,
    fibers: Table<Box<ObjFiber>>,
    /// How many objects are alive.
    live: usize,
    /// Roughly how many bytes they hold.
    bytes: usize,
    /// The most `bytes` has ever been.
    peak: usize,
    /// Where the next collection is due.
    threshold: usize,
    /// The growth factor, as a fraction.
    growth: (usize, usize),
    /// An absolute ceiling on floating garbage, if one is set.
    headroom: Option<usize>,
    /// Set while a collection is not wanted.
    paused: bool,
    /// How many full collections have run.
    collections: usize,
    /// Where instances keep their fields.
    arena: FieldArena,
    /// How many objects are in the young generation.
    young_total: usize,
    /// What those objects cost.
    young_bytes: usize,
    /// Whether a collection is due.
    due: bool,
    /// Whether anything has ever been allocated.
    touched: bool,
    /// Whether what the heap does is tallied.
    profiling: bool,
    /// The tallies.
    profile: Profile,
    /// What was allocated since the last collection of everything, while that
    /// was tallied.
    newborns: Vec<ObjectId>,
}

/// The heap's settings and tallies.
pub struct HeapStats {
    pub live: usize,
    pub bytes: usize,
    pub peak: usize,
    pub threshold: usize,
    pub growth: (usize, usize),
    pub headroom: Option<usize>,
    pub paused: bool,
    pub collections: usize,
    pub young_total: usize,
    pub young_bytes: usize,
    pub touched: bool,
    /// How many slots one block of a table holds.
    pub slot_block: usize,
    pub profiling: bool,
    pub profile: self::profile::ProfileModel,
    /// What was allocated since the last collection of everything.
    pub newborn: Seq<ObjectId>,
}

/// The settings and tallies that a heap starts with.
pub open spec fn fresh_stats() -> HeapStats {
    HeapStats {
        live: 0,
        bytes: 0,
        peak: 0,
        threshold: INITIAL_THRESHOLD,
        growth: (GROWTH_NUMERATOR, GROWTH_DENOMINATOR),
        headroom: None,
        paused: false,
        collections: 0,
        young_total: 0,
        young_bytes: 0,
        touched: false,
        slot_block: crate::table::SLOT_BLOCK,
        profiling: false,
        profile: self::profile::blank(),
        newborn: Seq::empty(),
    }
}

/// The larger of a peak and what is held now.
pub open spec fn raised(peak: usize, bytes: usize) -> usize {
    if peak < bytes {
        bytes
    } else {
        peak
    }
}

impl HeapStats {
    /// Whether two heaps are set up alike, and have come as far with collecting.
    pub open spec fn same_settings(self, other: HeapStats) -> bool {
        &&& self.threshold == other.threshold
        &&& self.growth == other.growth
        &&& self.headroom == other.headroom
        &&& self.paused == other.paused
        &&& self.collections == other.collections
        &&& self.slot_block == other.slot_block
        &&& self.profiling == other.profiling
    }

    /// Whether the old generation has grown enough that collecting is worth
    /// it.
    pub open spec fn wants_collection(self) -> bool {
        let settled = if self.bytes >= self.young_bytes {
            self.bytes - self.young_bytes
        } else {
            0
        };
        !self.paused && settled >= self.threshold
    }
}

impl Heap {
    /// The settings and tallies.
    pub closed spec fn stats(&self) -> HeapStats {
        HeapStats {
            live: self.live,
            bytes: self.bytes,
            peak: self.peak,
            threshold: self.threshold,
            growth: self.growth,
            headroom: self.headroom,
            paused: self.paused,
            collections: self.collections,
            young_total: self.young_total,
            young_bytes: self.young_bytes,
            touched: self.touched,
            slot_block: self.classes.block_size() as usize,
            profiling: self.profiling,
            profile: self.profile@,
            newborn: self.newborns@,
        }
    }

    /// The class and fields of every instance.
    closed spec fn instance_model(&self) -> Map<u32, InstanceModel> {
        Map::new(
            |i: u32| self.instances@.contains_key(i),
            |i: u32|
                InstanceModel {
                    class: self.instances@[i].class,
                    fields: self.arena.run(
                        self.instances@[i].spec_at(),
                        self.instances@[i].fields as int,
                    ),
                },
        )
    }

    /// What the heap holds.
    pub closed spec fn view(&self) -> HeapModel {
        HeapModel {
            classes: self.classes@,
            closures: self.closures@,
            functions: self.functions@,
            instances: self.instance_model(),
            lists: self.lists@,
            maps: self.maps@,
            ranges: self.ranges@,
            strings: self.strings@,
            upvalues: self.upvalues@,
            fibers: self.fibers@,
        }
    }

    /// Every table is well formed.
    closed spec fn tables_wf(&self) -> bool {
        &&& self.classes.wf()
        &&& self.closures.wf()
        &&& self.functions.wf()
        &&& self.instances.wf()
        &&& self.lists.wf()
        &&& self.maps.wf()
        &&& self.ranges.wf()
        &&& self.strings.wf()
        &&& self.upvalues.wf()
        &&& self.fibers.wf()
    }

    /// How many objects the tables hold.
    closed spec fn object_count(&self) -> int {
        self.classes.count() + self.closures.count() + self.functions.count() + self.instances.count() + self.lists.count() + self.maps.count() + self.ranges.count() + self.strings.count() + self.upvalues.count() + self.fibers.count()
    }

    /// How many young slots the tables list.
    closed spec fn young_count(&self) -> nat {
        self.classes.young_list().len() + self.closures.young_list().len() + self.functions.young_list().len() + self.instances.young_list().len() + self.lists.young_list().len() + self.maps.young_list().len() + self.ranges.young_list().len() + self.strings.young_list().len() + self.upvalues.young_list().len() + self.fibers.young_list().len()
    }

    /// Whether an object is young.
    pub closed spec fn spec_young(&self, id: ObjectId) -> bool {
        match ObjectType::spec_from_tag(id.spec_tag()) {
            Some(ObjectType::Class) => self.classes.young_has(id.spec_index()),
            Some(ObjectType::Closure) => self.closures.young_has(id.spec_index()),
            Some(ObjectType::Fn) => self.functions.young_has(id.spec_index()),
            Some(ObjectType::Instance) => self.instances.young_has(id.spec_index()),
            Some(ObjectType::List) => self.lists.young_has(id.spec_index()),
            Some(ObjectType::MapObject) => self.maps.young_has(id.spec_index()),
            Some(ObjectType::Range) => self.ranges.young_has(id.spec_index()),
            Some(ObjectType::String) => self.strings.young_has(id.spec_index()),
            Some(ObjectType::Upvalue) => self.upvalues.young_has(id.spec_index()),
            Some(ObjectType::Fiber) => self.fibers.young_has(id.spec_index()),
            None => false,
        }
    }

    /// Whether an object is remembered as pointing at something young.
    pub closed spec fn spec_remembered(&self, id: ObjectId) -> bool {
        match ObjectType::spec_from_tag(id.spec_tag()) {
            Some(ObjectType::Class) => self.classes.remembered_has(id.spec_index()),
            Some(ObjectType::Closure) => self.closures.remembered_has(id.spec_index()),
            Some(ObjectType::Fn) => self.functions.remembered_has(id.spec_index()),
            Some(ObjectType::Instance) => self.instances.remembered_has(id.spec_index()),
            Some(ObjectType::List) => self.lists.remembered_has(id.spec_index()),
            Some(ObjectType::MapObject) => self.maps.remembered_has(id.spec_index()),
            Some(ObjectType::Range) => self.ranges.remembered_has(id.spec_index()),
            Some(ObjectType::String) => self.strings.remembered_has(id.spec_index()),
            Some(ObjectType::Upvalue) => self.upvalues.remembered_has(id.spec_index()),
            Some(ObjectType::Fiber) => self.fibers.remembered_has(id.spec_index()),
            None => false,
        }
    }

    /// Whether an object carries a mark.
    pub closed spec fn spec_marked(&self, id: ObjectId) -> bool {
        match ObjectType::spec_from_tag(id.spec_tag()) {
            Some(ObjectType::Class) => self.classes.marked(id.spec_index()),
            Some(ObjectType::Closure) => self.closures.marked(id.spec_index()),
            Some(ObjectType::Fn) => self.functions.marked(id.spec_index()),
            Some(ObjectType::Instance) => self.instances.marked(id.spec_index()),
            Some(ObjectType::List) => self.lists.marked(id.spec_index()),
            Some(ObjectType::MapObject) => self.maps.marked(id.spec_index()),
            Some(ObjectType::Range) => self.ranges.marked(id.spec_index()),
            Some(ObjectType::String) => self.strings.marked(id.spec_index()),
            Some(ObjectType::Upvalue) => self.upvalues.marked(id.spec_index()),
            Some(ObjectType::Fiber) => self.fibers.marked(id.spec_index()),
            None => false,
        }
    }

    /// The least number of bytes that the objects take, slots among them.
    pub closed spec fn least_bytes(&self) -> nat {
        self.classes.least_bytes() + self.closures.least_bytes() + self.functions.least_bytes() + self.instances.least_bytes() + self.lists.least_bytes() + self.maps.least_bytes() + self.ranges.least_bytes() + self.strings.least_bytes() + self.upvalues.least_bytes() + self.fibers.least_bytes()
    }

    /// Every young slot holds an object.
    closed spec fn young_live(&self) -> bool {
        &&& forall|i: u32| #[trigger] self.classes.young_has(i) ==> self.classes@.contains_key(i)
        &&& forall|i: u32| #[trigger] self.closures.young_has(i) ==> self.closures@.contains_key(i)
        &&& forall|i: u32| #[trigger] self.functions.young_has(i) ==> self.functions@.contains_key(i)
        &&& forall|i: u32| #[trigger] self.instances.young_has(i) ==> self.instances@.contains_key(i)
        &&& forall|i: u32| #[trigger] self.lists.young_has(i) ==> self.lists@.contains_key(i)
        &&& forall|i: u32| #[trigger] self.maps.young_has(i) ==> self.maps@.contains_key(i)
        &&& forall|i: u32| #[trigger] self.ranges.young_has(i) ==> self.ranges@.contains_key(i)
        &&& forall|i: u32| #[trigger] self.strings.young_has(i) ==> self.strings@.contains_key(i)
        &&& forall|i: u32| #[trigger] self.upvalues.young_has(i) ==> self.upvalues@.contains_key(i)
        &&& forall|i: u32| #[trigger] self.fibers.young_has(i) ==> self.fibers@.contains_key(i)
    }

    /// Every instance's fields are in the arena, and no two share any.
    closed spec fn runs_wf(&self) -> bool {
        &&& forall|i: u32|
            self.instances@.contains_key(i) ==> self.arena.holds(
                (#[trigger] self.instances@[i]).spec_at(),
                self.instances@[i].fields as int,
            )
        &&& forall|i: u32, j: u32|
            self.instances@.contains_key(i) && self.instances@.contains_key(j) && i != j
                ==> crate::fields::apart(
                (#[trigger] self.instances@[i]).spec_at(),
                self.instances@[i].fields as int,
                (#[trigger] self.instances@[j]).spec_at(),
                self.instances@[j].fields as int,
            )
    }

    /// The settings are in range.
    pub open spec fn settings_wf(&self) -> bool {
        &&& 1 <= self.stats().growth.1 < self.stats().growth.0
        &&& self.stats().headroom matches Some(bytes) ==> bytes >= MIN_HEADROOM
    }

    /// The heap's invariant.
    pub closed spec fn wf(&self) -> bool {
        &&& self.tables_wf()
        &&& self.arena.wf()
        &&& self.runs_wf()
        &&& self.young_live()
        &&& self.live == self.object_count()
        &&& self.young_total == self.young_count()
        &&& self.due == self.stats().wants_collection()
        &&& self.settings_wf()
        &&& self.peak >= self.bytes
        &&& !self.touched ==> self.unnumbered()
        &&& self.blocks_alike()
    }

    /// Whether the blocks of every table are of one size.
    closed spec fn blocks_alike(&self) -> bool {
        &&& self.closures.block_size() == self.classes.block_size()
        &&& self.functions.block_size() == self.classes.block_size()
        &&& self.instances.block_size() == self.classes.block_size()
        &&& self.lists.block_size() == self.classes.block_size()
        &&& self.maps.block_size() == self.classes.block_size()
        &&& self.ranges.block_size() == self.classes.block_size()
        &&& self.strings.block_size() == self.classes.block_size()
        &&& self.upvalues.block_size() == self.classes.block_size()
        &&& self.fibers.block_size() == self.classes.block_size()
    }

    /// Whether no table has numbered a slot.
    closed spec fn unnumbered(&self) -> bool {
        &&& self.classes.numbered() == 0
        &&& self.closures.numbered() == 0
        &&& self.functions.numbered() == 0
        &&& self.instances.numbered() == 0
        &&& self.lists.numbered() == 0
        &&& self.maps.numbered() == 0
        &&& self.ranges.numbered() == 0
        &&& self.strings.numbered() == 0
        &&& self.upvalues.numbered() == 0
        &&& self.fibers.numbered() == 0
    }

    /// The peak is never below what the heap holds.
    pub proof fn law_peak_is_highest(&self)
        requires
            self.wf(),
        ensures
            self.stats().peak >= self.stats().bytes,
    {
    }

    /// Whether every table has a number left for `n` more objects.
    pub closed spec fn has_slots(&self, n: int) -> bool {
        &&& self.classes.room() >= n
        &&& self.closures.room() >= n
        &&& self.functions.room() >= n
        &&& self.instances.room() >= n
        &&& self.lists.room() >= n
        &&& self.maps.room() >= n
        &&& self.ranges.room() >= n
        &&& self.strings.room() >= n
        &&& self.upvalues.room() >= n
        &&& self.fibers.room() >= n
    }

    /// How many chunks the fields of instances are in.
    pub closed spec fn chunks(&self) -> nat {
        self.arena.chunks@.len()
    }

    /// Whether `n` more objects of any type fit, fields and all.
    pub open spec fn has_room(&self, n: int) -> bool {
        &&& self.has_slots(n)
        &&& self.chunks() + n <= MAX_CHUNKS
    }

    /// Whether two heaps agree on the generations.
    pub open spec fn same_generations(&self, other: &Heap) -> bool {
        &&& forall|id: ObjectId| #[trigger] self.spec_young(id) == other.spec_young(id)
        &&& forall|id: ObjectId| #[trigger] self.spec_remembered(id) == other.spec_remembered(id)
    }

    /// Whether two heaps have room for the same.
    pub open spec fn same_room(&self, other: &Heap) -> bool {
        &&& forall|n: int| #[trigger] self.has_slots(n) == other.has_slots(n)
        &&& self.chunks() == other.chunks()
    }

    /// Room for more is room for less.
    pub proof fn lemma_room(&self, more: int, less: int)
        requires
            self.has_room(more),
            less <= more,
        ensures
            self.has_room(less),
    {
    }

    /// Numbers left for more objects are numbers left for fewer.
    pub proof fn lemma_slots(&self, more: int, less: int)
        requires
            self.has_slots(more),
            less <= more,
        ensures
            self.has_slots(less),
    {
    }

    /// Making an object leaves everything that was there as it was.
    pub proof fn law_allocation_keeps(&self, before: &Heap, id: ObjectId, object: Object)
        requires
            self.allocated(before, id, object),
        ensures
            self@.keeps(before@),
    {
        assert(ObjectType::spec_from_tag(id.spec_tag()) == Some(object.kind())) by {
            assert(ObjectType::spec_from_tag(object.kind().spec_tag()) == Some(object.kind()));
        }
    }

    /// An empty heap.
    pub fn new() -> (heap: Heap)
        ensures
            heap.wf(),
            forall|id: ObjectId| !(#[trigger] heap@.has(id)),
            forall|id: ObjectId| !(#[trigger] heap.spec_young(id)),
            forall|id: ObjectId| !(#[trigger] heap.spec_remembered(id)),
            heap.stats() == fresh_stats(),
            heap.untouched(),
            heap.has_room(MAX_CHUNKS as int),
    {
        Heap {
            classes: Table::new(),
            closures: Table::new(),
            functions: Table::new(),
            instances: Table::new(),
            lists: Table::new(),
            maps: Table::new(),
            ranges: Table::new(),
            strings: Table::new(),
            upvalues: Table::new(),
            fibers: Table::new(),
            live: 0,
            bytes: 0,
            peak: 0,
            threshold: INITIAL_THRESHOLD,
            growth: (GROWTH_NUMERATOR, GROWTH_DENOMINATOR),
            headroom: None,
            paused: false,
            collections: 0,
            arena: FieldArena::new(),
            young_total: 0,
            young_bytes: 0,
            due: false,
            touched: false,
            profiling: false,
            profile: Profile::default(),
            newborns: Vec::new(),
        }
    }

    /// Whether two heaps agree on everything but the objects.
    pub open spec fn same_books(&self, other: &Heap) -> bool {
        &&& self.stats() == other.stats()
        &&& self.same_generations(other)
        &&& self.same_room(other)
    }

    /// The class under a handle. A handle of another type, or one whose object
    /// is gone, reads as `None`.
    pub fn class(&self, id: ObjectId) -> (r: Option<&ObjClass>)
        requires
            self.wf(),
        ensures
            match r {
                Some(class) => self@.class(id) == Some(*class),
                None => self@.class(id) is None,
            },
    {
        if id.tag() == ObjectType::Class.tag() {
            match self.classes.get(id.index()) {
                Some(class) => Some(class.get()),
                None => None,
            }
        } else {
            None
        }
    }

    /// The class under a handle, for changing; a class in the image is not for changing.
    pub fn class_mut(&mut self, id: ObjectId) -> (r: Option<&mut ObjClass>)
        requires
            old(self).wf(),
        ensures
            match r {
                Some(class) => {
                    &&& old(self)@.class(id) == Some(*class)
                    &&& old(self)@.classes[id.spec_index()] is Owned
                    &&& final(self).wf()
                    &&& final(self)@ == (HeapModel {
                        classes: old(self)@.classes.insert(
                            id.spec_index(),
                            ClassRef::Owned(Box::new(*final(class))),
                        ),
                        ..old(self)@
                    })
                    &&& final(self).same_books(old(self))
                },
                None => {
                    &&& old(self)@.class(id) is None || old(self)@.permanent(id)
                    &&& *final(self) == *old(self)
                },
            },
    {
        if id.tag() == ObjectType::Class.tag() {
            let index: u32 = id.index();
            let frozen: bool = match self.classes.get(index) {
                Some(class) => class.is_static(),
                None => true,
            };
            if frozen {
                return None;
            }
            let ghost after = *final(self);
            match self.classes.get_mut(index) {
                Some(class) => {
                    let inner = class.as_mut();
                    proof {
                        assert(after.runs_wf());
                    }
                    inner
                },
                None => None,
            }
        } else {
            None
        }
    }

    /// The closure under a handle. A handle of another type, or one whose object
    /// is gone, reads as `None`.
    pub fn closure(&self, id: ObjectId) -> (r: Option<&ObjClosure>)
        requires
            self.wf(),
        ensures
            match r {
                Some(closure) => self@.closure(id) == Some(*closure),
                None => self@.closure(id) is None,
            },
    {
        if id.tag() == ObjectType::Closure.tag() {
            self.closures.get(id.index())
        } else {
            None
        }
    }

    /// The closure under a handle, for changing.
    pub fn closure_mut(&mut self, id: ObjectId) -> (r: Option<&mut ObjClosure>)
        requires
            old(self).wf(),
        ensures
            match r {
                Some(closure) => {
                    &&& old(self)@.closure(id) == Some(*closure)
                    &&& final(self).wf()
                    &&& final(self)@ == (HeapModel {
                        closures: old(self)@.closures.insert(
                            id.spec_index(),
                            *final(closure),
                        ),
                        ..old(self)@
                    })
                    &&& final(self).same_books(old(self))
                },
                None => old(self)@.closure(id) is None && *final(self) == *old(self),
            },
    {
        if id.tag() == ObjectType::Closure.tag() {
            let ghost after = *final(self);
            let closure = self.closures.get_mut(id.index());
            proof {
                assert(after.runs_wf());
            }
            closure
        } else {
            None
        }
    }

    /// The function under a handle. A handle of another type, or one whose object
    /// is gone, reads as `None`.
    pub fn function(&self, id: ObjectId) -> (r: Option<&ObjFn>)
        requires
            self.wf(),
        ensures
            match r {
                Some(function) => self@.function(id) == Some(*function),
                None => self@.function(id) is None,
            },
    {
        if id.tag() == ObjectType::Fn.tag() {
            match self.functions.get(id.index()) {
                Some(function) => Some(&**function),
                None => None,
            }
        } else {
            None
        }
    }

    /// The function under a handle, for changing.
    pub fn function_mut(&mut self, id: ObjectId) -> (r: Option<&mut ObjFn>)
        requires
            old(self).wf(),
        ensures
            match r {
                Some(function) => {
                    &&& old(self)@.function(id) == Some(*function)
                    &&& final(self).wf()
                    &&& final(self)@ == (HeapModel {
                        functions: old(self)@.functions.insert(
                            id.spec_index(),
                            Box::new(*final(function)),
                        ),
                        ..old(self)@
                    })
                    &&& final(self).same_books(old(self))
                },
                None => old(self)@.function(id) is None && *final(self) == *old(self),
            },
    {
        if id.tag() == ObjectType::Fn.tag() {
            let ghost after = *final(self);
            match self.functions.get_mut(id.index()) {
                Some(function) => {
                    proof {
                        assert(after.runs_wf());
                    }
                    Some(&mut **function)
                },
                None => None,
            }
        } else {
            None
        }
    }

    /// The fiber under a handle. A handle of another type, or one whose object
    /// is gone, reads as `None`.
    pub fn fiber(&self, id: ObjectId) -> (r: Option<&ObjFiber>)
        requires
            self.wf(),
        ensures
            match r {
                Some(fiber) => self@.fiber(id) == Some(*fiber),
                None => self@.fiber(id) is None,
            },
    {
        if id.tag() == ObjectType::Fiber.tag() {
            match self.fibers.get(id.index()) {
                Some(fiber) => Some(&**fiber),
                None => None,
            }
        } else {
            None
        }
    }

    /// The fiber under a handle, for changing.
    pub fn fiber_mut(&mut self, id: ObjectId) -> (r: Option<&mut ObjFiber>)
        requires
            old(self).wf(),
        ensures
            match r {
                Some(fiber) => {
                    &&& old(self)@.fiber(id) == Some(*fiber)
                    &&& final(self).wf()
                    &&& final(self)@ == (HeapModel {
                        fibers: old(self)@.fibers.insert(
                            id.spec_index(),
                            Box::new(*final(fiber)),
                        ),
                        ..old(self)@
                    })
                    &&& final(self).same_books(old(self))
                },
                None => old(self)@.fiber(id) is None && *final(self) == *old(self),
            },
    {
        if id.tag() == ObjectType::Fiber.tag() {
            let ghost after = *final(self);
            match self.fibers.get_mut(id.index()) {
                Some(fiber) => {
                    proof {
                        assert(after.runs_wf());
                    }
                    Some(&mut **fiber)
                },
                None => None,
            }
        } else {
            None
        }
    }

    /// The list under a handle. A handle of another type, or one whose object
    /// is gone, reads as `None`.
    pub fn list(&self, id: ObjectId) -> (r: Option<&ObjList>)
        requires
            self.wf(),
        ensures
            match r {
                Some(list) => self@.list(id) == Some(*list),
                None => self@.list(id) is None,
            },
    {
        if id.tag() == ObjectType::List.tag() {
            self.lists.get(id.index())
        } else {
            None
        }
    }

    /// The list under a handle, for changing.
    pub fn list_mut(&mut self, id: ObjectId) -> (r: Option<&mut ObjList>)
        requires
            old(self).wf(),
        ensures
            match r {
                Some(list) => {
                    &&& old(self)@.list(id) == Some(*list)
                    &&& final(self).wf()
                    &&& final(self)@ == (HeapModel {
                        lists: old(self)@.lists.insert(
                            id.spec_index(),
                            *final(list),
                        ),
                        ..old(self)@
                    })
                    &&& final(self).same_books(old(self))
                },
                None => old(self)@.list(id) is None && *final(self) == *old(self),
            },
    {
        if id.tag() == ObjectType::List.tag() {
            let ghost after = *final(self);
            let list = self.lists.get_mut(id.index());
            proof {
                assert(after.runs_wf());
            }
            list
        } else {
            None
        }
    }

    /// The map under a handle. A handle of another type, or one whose object
    /// is gone, reads as `None`.
    pub fn map(&self, id: ObjectId) -> (r: Option<&ObjMap>)
        requires
            self.wf(),
        ensures
            match r {
                Some(map) => self@.map(id) == Some(*map),
                None => self@.map(id) is None,
            },
    {
        if id.tag() == ObjectType::MapObject.tag() {
            self.maps.get(id.index())
        } else {
            None
        }
    }

    /// The map under a handle, for changing.
    pub fn map_mut(&mut self, id: ObjectId) -> (r: Option<&mut ObjMap>)
        requires
            old(self).wf(),
        ensures
            match r {
                Some(map) => {
                    &&& old(self)@.map(id) == Some(*map)
                    &&& final(self).wf()
                    &&& final(self)@ == (HeapModel {
                        maps: old(self)@.maps.insert(
                            id.spec_index(),
                            *final(map),
                        ),
                        ..old(self)@
                    })
                    &&& final(self).same_books(old(self))
                },
                None => old(self)@.map(id) is None && *final(self) == *old(self),
            },
    {
        if id.tag() == ObjectType::MapObject.tag() {
            let ghost after = *final(self);
            let map = self.maps.get_mut(id.index());
            proof {
                assert(after.runs_wf());
            }
            map
        } else {
            None
        }
    }

    /// The range under a handle. A handle of another type, or one whose object
    /// is gone, reads as `None`.
    pub fn range(&self, id: ObjectId) -> (r: Option<&ObjRange>)
        requires
            self.wf(),
        ensures
            match r {
                Some(range) => self@.range(id) == Some(*range),
                None => self@.range(id) is None,
            },
    {
        if id.tag() == ObjectType::Range.tag() {
            self.ranges.get(id.index())
        } else {
            None
        }
    }

    /// The string under a handle. A handle of another type, or one whose object
    /// is gone, reads as `None`.
    pub fn string(&self, id: ObjectId) -> (r: Option<&ObjString>)
        requires
            self.wf(),
        ensures
            match r {
                Some(string) => self@.string(id) == Some(*string),
                None => self@.string(id) is None,
            },
    {
        if id.tag() == ObjectType::String.tag() {
            self.strings.get(id.index())
        } else {
            None
        }
    }

    /// The string under a handle, for changing.
    pub fn string_mut(&mut self, id: ObjectId) -> (r: Option<&mut ObjString>)
        requires
            old(self).wf(),
        ensures
            match r {
                Some(string) => {
                    &&& old(self)@.string(id) == Some(*string)
                    &&& final(self).wf()
                    &&& final(self)@ == (HeapModel {
                        strings: old(self)@.strings.insert(
                            id.spec_index(),
                            *final(string),
                        ),
                        ..old(self)@
                    })
                    &&& final(self).same_books(old(self))
                },
                None => old(self)@.string(id) is None && *final(self) == *old(self),
            },
    {
        if id.tag() == ObjectType::String.tag() {
            let ghost after = *final(self);
            let string = self.strings.get_mut(id.index());
            proof {
                assert(after.runs_wf());
            }
            string
        } else {
            None
        }
    }

    /// The upvalue under a handle. A handle of another type, or one whose object
    /// is gone, reads as `None`.
    pub fn upvalue(&self, id: ObjectId) -> (r: Option<&ObjUpvalue>)
        requires
            self.wf(),
        ensures
            match r {
                Some(upvalue) => self@.upvalue(id) == Some(*upvalue),
                None => self@.upvalue(id) is None,
            },
    {
        if id.tag() == ObjectType::Upvalue.tag() {
            self.upvalues.get(id.index())
        } else {
            None
        }
    }

    /// The upvalue under a handle, for changing.
    pub fn upvalue_mut(&mut self, id: ObjectId) -> (r: Option<&mut ObjUpvalue>)
        requires
            old(self).wf(),
        ensures
            match r {
                Some(upvalue) => {
                    &&& old(self)@.upvalue(id) == Some(*upvalue)
                    &&& final(self).wf()
                    &&& final(self)@ == (HeapModel {
                        upvalues: old(self)@.upvalues.insert(
                            id.spec_index(),
                            *final(upvalue),
                        ),
                        ..old(self)@
                    })
                    &&& final(self).same_books(old(self))
                },
                None => old(self)@.upvalue(id) is None && *final(self) == *old(self),
            },
    {
        if id.tag() == ObjectType::Upvalue.tag() {
            let ghost after = *final(self);
            let upvalue = self.upvalues.get_mut(id.index());
            proof {
                assert(after.runs_wf());
            }
            upvalue
        } else {
            None
        }
    }

    /// The instance under a handle.
    pub fn instance(&self, id: ObjectId) -> (r: Option<&ObjInstance>)
        requires
            self.wf(),
        ensures
            match r {
                Some(instance) => {
                    &&& self@.instance(id) is Some
                    &&& instance.class == self@.instance(id)->0.class
                    &&& instance.fields == self@.instance(id)->0.fields.len()
                },
                None => self@.instance(id) is None,
            },
    {
        if id.tag() == ObjectType::Instance.tag() {
            self.instances.get(id.index())
        } else {
            None
        }
    }

    /// Replacing an instance by one with its fields in the same place keeps the
    /// heap well formed.
    proof fn lemma_instance_changed(before: &Heap, after: &Heap, id: ObjectId, instance: ObjInstance)
        requires
            before.wf(),
        ensures
            before.instances@.contains_key(id.spec_index()) && after.instances.wf()
                && after.instances@ == before.instances@.insert(id.spec_index(), instance)
                && after.instances.same_books(&before.instances) && *after == (Heap {
                instances: after.instances,
                ..*before
            }) && instance.place == before.instances@[id.spec_index()].place && instance.fields
                == before.instances@[id.spec_index()].fields ==> {
                &&& after.wf()
                &&& after@ == (HeapModel {
                    instances: before@.instances.insert(
                        id.spec_index(),
                        (InstanceModel {
                            class: instance.class,
                            fields: before@.instances[id.spec_index()].fields,
                        }),
                    ),
                    ..before@
                })
                &&& after.same_books(before)
            },
    {
        if before.instances@.contains_key(id.spec_index()) && after.instances.wf()
            && after.instances@ == before.instances@.insert(id.spec_index(), instance)
            && after.instances.same_books(&before.instances) && *after == (Heap {
            instances: after.instances,
            ..*before
        }) && instance.place == before.instances@[id.spec_index()].place && instance.fields
            == before.instances@[id.spec_index()].fields {
            assert(after.runs_wf());
            assert(after@.instances =~= before@.instances.insert(
                id.spec_index(),
                (InstanceModel {
                    class: instance.class,
                    fields: before@.instances[id.spec_index()].fields,
                }),
            ));
        }
    }

    /// The instance under a handle, for changing. Where its fields are is the
    /// heap's business: the heap stays well formed if that is left alone.
    pub fn instance_mut(&mut self, id: ObjectId) -> (r: Option<&mut ObjInstance>)
        requires
            old(self).wf(),
        ensures
            match r {
                Some(instance) => {
                    &&& old(self)@.instance(id) is Some
                    &&& instance.class == old(self)@.instance(id)->0.class
                    &&& instance.fields == old(self)@.instance(id)->0.fields.len()
                    &&& final(instance).place == instance.place && final(instance).fields
                        == instance.fields ==> {
                        &&& final(self).wf()
                        &&& final(self)@ == (HeapModel {
                            instances: old(self)@.instances.insert(
                                id.spec_index(),
                                (InstanceModel {
                                    class: final(instance).class,
                                    fields: old(self)@.instance(id)->0.fields,
                                }),
                            ),
                            ..old(self)@
                        })
                        &&& final(self).same_books(old(self))
                    }
                },
                None => old(self)@.instance(id) is None && *final(self) == *old(self),
            },
    {
        if id.tag() == ObjectType::Instance.tag() {
            let ghost before = *self;
            let ghost after = *final(self);
            let instance = self.instances.get_mut(id.index());
            proof {
                Heap::lemma_instance_changed(&before, &after, id, *final(instance->0));
            }
            instance
        } else {
            None
        }
    }

    /// Whether an instance's fields are in the arena and belong to no other.
    pub closed spec fn fits(&self, instance: ObjInstance) -> bool {
        &&& self.arena.holds(instance.spec_at(), instance.fields as int)
        &&& forall|i: u32|
            self.instances@.contains_key(i) ==> crate::fields::apart(
                (#[trigger] self.instances@[i]).spec_at(),
                self.instances@[i].fields as int,
                instance.spec_at(),
                instance.fields as int,
            )
    }

    /// The fields that an instance on its way into the heap has.
    pub closed spec fn fields_of(&self, object: Object) -> Seq<Value> {
        match object {
            Object::Instance(it) => self.arena.run(it.spec_at(), it.fields as int),
            _ => Seq::empty(),
        }
    }

    /// Whether a heap is an earlier one with an object added: young, under a
    /// new handle, and charged for.
    pub open spec fn allocated(&self, before: &Heap, id: ObjectId, object: Object) -> bool {
        &&& id.spec_tag() == object.kind().spec_tag()
        &&& !before@.has(id)
        &&& self@ == before@.with(id, object, before.fields_of(object))
        &&& self.stats().live == before.stats().live + 1
        &&& self.stats().young_total == before.stats().young_total + 1
        &&& self.stats().bytes >= crate::memory::capped(
            before.stats().bytes as nat + least_cost(object),
        )
        &&& self.stats().peak == raised(before.stats().peak, self.stats().bytes)
        &&& self.stats().young_bytes >= crate::memory::capped(
            before.stats().young_bytes as nat + least_cost(object),
        )
        &&& exact_cost(object) ==> {
            &&& self.stats().bytes == crate::memory::capped(
                before.stats().bytes as nat + least_cost(object),
            )
            &&& self.stats().young_bytes == crate::memory::capped(
                before.stats().young_bytes as nat + least_cost(object),
            )
        }
        &&& self.stats() == (HeapStats {
            live: self.stats().live,
            bytes: self.stats().bytes,
            peak: self.stats().peak,
            young_total: self.stats().young_total,
            young_bytes: self.stats().young_bytes,
            touched: true,
            profile: self.stats().profile,
            newborn: self.stats().newborn,
            ..before.stats()
        })
        &&& self::profile::tallied(self.stats(), before.stats(), id, object)
        &&& forall|other: ObjectId| #[trigger]
            self.spec_young(other) == (before.spec_young(other) || other == id)
        &&& forall|other: ObjectId| #[trigger]
            self.spec_remembered(other) == before.spec_remembered(other)
        &&& forall|n: int| #[trigger] before.has_slots(n) ==> self.has_slots(n - 1)
        &&& self.chunks() == before.chunks()
    }

    /// Put a value in its table as a young object, and say what the slot plus
    /// its contents cost.
    fn place<T: Trace>(table: &mut Table<T>, kind: ObjectType, value: T) -> (r: (ObjectId, usize))
        requires
            old(table).wf(),
            old(table).room() > 0,
            forall|i: u32| #[trigger] old(table).young_has(i) ==> old(table)@.contains_key(i),
        ensures
            final(table).wf(),
            r.0 == ObjectId::spec_tagged(kind.spec_tag(), old(table).next_slot()),
            r.0.spec_tag() == kind.spec_tag(),
            r.0.spec_index() == old(table).next_slot(),
            !old(table)@.contains_key(r.0.spec_index()),
            final(table)@ == old(table)@.insert(r.0.spec_index(), value),
            r.1 >= crate::memory::capped(
                vstd::layout::size_of::<Option<T>>() + value.least_contents(),
            ),
            value.exact() ==> r.1 == crate::memory::capped(
                vstd::layout::size_of::<Option<T>>() + value.least_contents(),
            ),
            final(table).count() == old(table).count() + 1,
            final(table).room() == old(table).room() - 1,
            final(table).block_size() == old(table).block_size(),
            final(table).young_list() == old(table).young_list().push(r.0.spec_index()),
            forall|i: u32| #[trigger]
                final(table).young_has(i) == (old(table).young_has(i) || i == r.0.spec_index()),
            forall|i: u32| #[trigger]
                final(table).remembered_has(i) == old(table).remembered_has(i),
    {
        let cost: usize = table.slot_size().saturating_add(value.contents_size());
        let index: u32 = table.allocate(value);
        table.make_young(index);
        (ObjectId::tagged(kind.tag(), index), cost)
    }

    /// Work out again whether a collection is due.
    fn refresh_due(&mut self)
        ensures
            final(self).due == final(self).stats().wants_collection(),
            *final(self) == (Heap { due: final(self).due, ..*old(self) }),
    {
        self.due = self.should_collect();
    }

    /// Note what is held now, if it is the most there ever was.
    fn raise_peak(&mut self)
        ensures
            *final(self) == (Heap {
                peak: raised(old(self).peak, old(self).bytes),
                ..*old(self)
            }),
    {
        if self.peak < self.bytes {
            self.peak = self.bytes;
        }
    }

    /// Is the live set big enough that collecting is worth it? The young
    /// generation does not count towards it.
    pub fn should_collect(&self) -> (r: bool)
        ensures
            r == self.stats().wants_collection(),
    {
        !self.paused && self.bytes.saturating_sub(self.young_bytes) >= self.threshold
    }

    /// No table holds more objects than a handle can number.
    proof fn lemma_counts(&self)
        requires
            self.tables_wf(),
            self.young_live(),
        ensures
            0 <= self.object_count() <= 10 * MAX_SLOTS,
            self.young_count() <= self.object_count(),
    {
        self.classes.lemma_count();
        self.classes.lemma_young_bound();
        self.closures.lemma_count();
        self.closures.lemma_young_bound();
        self.functions.lemma_count();
        self.functions.lemma_young_bound();
        self.instances.lemma_count();
        self.instances.lemma_young_bound();
        self.lists.lemma_count();
        self.lists.lemma_young_bound();
        self.maps.lemma_count();
        self.maps.lemma_young_bound();
        self.ranges.lemma_count();
        self.ranges.lemma_young_bound();
        self.strings.lemma_count();
        self.strings.lemma_young_bound();
        self.upvalues.lemma_count();
        self.upvalues.lemma_young_bound();
        self.fibers.lemma_count();
        self.fibers.lemma_young_bound();
    }

    /// Put an object in its type's table and hand back a handle to it.
    ///
    /// This never collects: the virtual machine decides when to, at a point
    /// where it knows what its roots are. The handle names no object that is
    /// there, but it may be one that named an object since swept.
    pub fn allocate(&mut self, object: Object) -> (id: ObjectId)
        requires
            old(self).wf(),
            old(self).has_slots(1),
            object matches Object::Instance(it) ==> old(self).fits(it),
        ensures
            final(self).wf(),
            final(self).allocated(old(self), id, object),
    {
        let ghost before = *self;
        proof {
            before.lemma_counts();
        }
        let (id, cost) = self.place_object(object);
        let ghost placed = *self;
        proof {
            placed.lemma_counts();
        }
        self.live = self.live + 1;
        self.young_total = self.young_total + 1;
        self.young_bytes = self.young_bytes.saturating_add(cost);
        self.bytes = self.bytes.saturating_add(cost);
        self.touched = true;
        self.raise_peak();
        self.refresh_due();
        if self.profiling {
            self.note_allocation(id, cost);
        }
        proof {
            Heap::lemma_same_contents(&placed, self);
        }
        id
    }

    /// What hangs on the tables and the arena alone.
    proof fn lemma_same_contents(before: &Heap, after: &Heap)
        requires
            after.classes == before.classes,
            after.closures == before.closures,
            after.functions == before.functions,
            after.instances == before.instances,
            after.lists == before.lists,
            after.maps == before.maps,
            after.ranges == before.ranges,
            after.strings == before.strings,
            after.upvalues == before.upvalues,
            after.fibers == before.fibers,
            after.arena == before.arena,
        ensures
            after@ == before@,
            after.tables_wf() == before.tables_wf(),
            after.runs_wf() == before.runs_wf(),
            after.young_live() == before.young_live(),
            after.object_count() == before.object_count(),
            after.young_count() == before.young_count(),
            after.same_generations(before),
            after.same_room(before),
            after.unnumbered() == before.unnumbered(),
            after.blocks_alike() == before.blocks_alike(),
    {
        assert(after.instance_model() =~= before.instance_model());
    }

    /// Put an object in its type's table, leaving the tallies alone.
    fn place_object(&mut self, object: Object) -> (r: (ObjectId, usize))
        requires
            old(self).wf(),
            old(self).has_slots(1),
            object matches Object::Instance(it) ==> old(self).fits(it),
        ensures
            final(self).tables_wf(),
            final(self).runs_wf(),
            final(self).young_live(),
            final(self).arena == old(self).arena,
            final(self).stats() == old(self).stats(),
            final(self).blocks_alike(),
            final(self).object_count() == old(self).object_count() + 1,
            final(self).young_count() == old(self).young_count() + 1,
            r.0.spec_tag() == object.kind().spec_tag(),
            !old(self)@.has(r.0),
            final(self)@ == old(self)@.with(r.0, object, old(self).fields_of(object)),
            r.1 >= crate::memory::capped(least_cost(object)),
            exact_cost(object) ==> r.1 == crate::memory::capped(least_cost(object)),
            forall|other: ObjectId| #[trigger]
                final(self).spec_young(other) == (old(self).spec_young(other) || other == r.0),
            forall|other: ObjectId| #[trigger]
                final(self).spec_remembered(other) == old(self).spec_remembered(other),
            forall|n: int| #[trigger] old(self).has_slots(n) ==> final(self).has_slots(n - 1),
            final(self).chunks() == old(self).chunks(),
    {
        let ghost before = *self;
        match object {
            Object::Class(it) => {
                let r = Heap::place(&mut self.classes, ObjectType::Class, ClassRef::Owned(it));
                proof {
                    crate::handle::lemma_parts_determine(r.0);
                    assert(self.instance_model() =~= before@.with(
                        r.0,
                        object,
                        before.fields_of(object),
                    ).instances);
                }
                r
            },
            Object::Closure(it) => {
                let r = Heap::place(&mut self.closures, ObjectType::Closure, it);
                proof {
                    crate::handle::lemma_parts_determine(r.0);
                    assert(self.instance_model() =~= before@.with(
                        r.0,
                        object,
                        before.fields_of(object),
                    ).instances);
                }
                r
            },
            Object::Fn(it) => {
                let r = Heap::place(&mut self.functions, ObjectType::Fn, it);
                proof {
                    crate::handle::lemma_parts_determine(r.0);
                    assert(self.instance_model() =~= before@.with(
                        r.0,
                        object,
                        before.fields_of(object),
                    ).instances);
                }
                r
            },
            Object::Instance(it) => {
                let r = Heap::place(&mut self.instances, ObjectType::Instance, it);
                proof {
                    crate::handle::lemma_parts_determine(r.0);
                    assert(self.instance_model() =~= before@.with(
                        r.0,
                        object,
                        before.fields_of(object),
                    ).instances);
                }
                r
            },
            Object::List(it) => {
                let r = Heap::place(&mut self.lists, ObjectType::List, it);
                proof {
                    crate::handle::lemma_parts_determine(r.0);
                    assert(self.instance_model() =~= before@.with(
                        r.0,
                        object,
                        before.fields_of(object),
                    ).instances);
                }
                r
            },
            Object::MapObject(it) => {
                let r = Heap::place(&mut self.maps, ObjectType::MapObject, it);
                proof {
                    crate::handle::lemma_parts_determine(r.0);
                    assert(self.instance_model() =~= before@.with(
                        r.0,
                        object,
                        before.fields_of(object),
                    ).instances);
                }
                r
            },
            Object::Range(it) => {
                let r = Heap::place(&mut self.ranges, ObjectType::Range, it);
                proof {
                    crate::handle::lemma_parts_determine(r.0);
                    assert(self.instance_model() =~= before@.with(
                        r.0,
                        object,
                        before.fields_of(object),
                    ).instances);
                }
                r
            },
            Object::String(it) => {
                let r = Heap::place(&mut self.strings, ObjectType::String, it);
                proof {
                    crate::handle::lemma_parts_determine(r.0);
                    assert(self.instance_model() =~= before@.with(
                        r.0,
                        object,
                        before.fields_of(object),
                    ).instances);
                }
                r
            },
            Object::Upvalue(it) => {
                let r = Heap::place(&mut self.upvalues, ObjectType::Upvalue, it);
                proof {
                    crate::handle::lemma_parts_determine(r.0);
                    assert(self.instance_model() =~= before@.with(
                        r.0,
                        object,
                        before.fields_of(object),
                    ).instances);
                }
                r
            },
            Object::Fiber(it) => {
                let r = Heap::place(&mut self.fibers, ObjectType::Fiber, it);
                proof {
                    crate::handle::lemma_parts_determine(r.0);
                    assert(self.instance_model() =~= before@.with(
                        r.0,
                        object,
                        before.fields_of(object),
                    ).instances);
                }
                r
            },
        }
    }
}

} // verus!
