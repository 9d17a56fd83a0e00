//! The heap, its collector, the arena and the tables.

use wren::bytecode::{Chunk, Op};
use wren::bytecode::listing::disassemble;
use wren::fields::{FieldArena, FieldRooms};
use wren::object::{ObjList, ObjString, Object, ObjectType};
use wren::symbol::{footprint_with, SymbolTable};
use wren::table::{Table, TableRooms};
use wren::uheap::{Arena, UHeap};
use wren::{Heap, Value};

fn string(text: &str) -> Object {
    Object::String(ObjString::from_text(text))
}

#[test]
fn an_object_is_read_back_by_its_handle() {
    let mut heap = Heap::new();
    let id = heap.allocate(string("hello"));
    assert_eq!(heap.string(id).and_then(|s| s.as_str()), Some("hello"));
    assert!(heap.list(id).is_none());
    assert!(heap.map(id).is_none());
    assert_eq!(heap.live(), 1);
}

#[test]
fn text_that_is_not_utf8_is_no_text() {
    let mut heap = Heap::new();
    let id = heap.allocate(Object::String(ObjString::new(vec![0xff, 0xfe])));
    assert_eq!(heap.string(id).and_then(|s| s.as_str()), None);
}

#[test]
fn collecting_keeps_what_is_reachable_and_nothing_else() {
    let mut heap = Heap::new();
    let kept = heap.allocate(string("kept"));
    let list = heap.allocate(Object::List(ObjList { elements: vec![Value::object(kept)] }));
    let lost = heap.allocate(string("lost"));
    let result = heap.collect(&vec![Value::object(list)]);
    assert_eq!(result.before, 3);
    assert_eq!(result.after, 2);
    assert_eq!(result.freed(), 1);
    assert!(heap.is_live(kept));
    assert!(heap.is_live(list));
    assert!(!heap.is_live(lost));
    assert!(heap.string(lost).is_none());
    assert_eq!(heap.collect(&vec![Value::object(list)]).freed(), 0);
}

#[test]
fn fields_are_read_back_and_moved_with_their_object() {
    let mut heap = Heap::new();
    let name = heap.allocate(string("C"));
    let class = heap.allocate(Object::Class(Box::new(wren::ObjClass::new(name, None))));
    let one = Value::num(1.0f64.to_bits());
    let two = Value::num(2.0f64.to_bits());
    let mut kept = Vec::new();
    for i in 0..50 {
        let id = heap.new_instance(class, &[one, Value::null()]);
        assert!(heap.set_instance_field(id, 1, two));
        if i % 3 == 0 {
            kept.push(id);
        }
    }
    let mut roots: Vec<Value> = kept.iter().map(|id| Value::object(*id)).collect();
    roots.push(Value::object(class));
    heap.collect(&roots);
    for id in kept {
        assert_eq!(heap.instance_fields(id), vec![one, two]);
        assert_eq!(heap.instance_field(id, 2), None);
    }
}

#[test]
fn bytes_are_counted() {
    let mut heap = Heap::new();
    let before = heap.bytes();
    heap.allocate(string("some text that takes room"));
    assert!(heap.bytes() > before);
    assert!(heap.peak_bytes() >= heap.bytes());
}

#[test]
fn blocks_are_apart_and_come_back() {
    let mut memory = [0usize; 64];
    let mut heap = UHeap::new(&mut memory);
    let a = heap.allocate(4).unwrap();
    let b = heap.allocate(8).unwrap();
    assert!(a + 4 <= b || b + 8 <= a);
    assert_eq!(heap.blocks(), 2);
    assert!(heap.free(a));
    assert!(heap.free(b));
    assert_eq!(heap.blocks(), 0);
    assert!(!heap.free(b));
    assert!(heap.allocate(1000).is_none());
    assert_eq!(heap.refused(), 1);
}

#[test]
fn an_arena_counts_what_it_gives() {
    let mut arena: Arena<64> = Arena::new();
    assert_eq!(arena.used(), 0);
    let at = arena.take(24, 8).unwrap();
    assert!(arena.used() > 0);
    assert_eq!(arena.blocks(), 1);
    assert!(arena.give(at));
    assert_eq!(arena.blocks(), 0);
    assert_eq!(arena.capacity(), 64 * std::mem::size_of::<usize>());
}

#[test]
fn symbols_keep_their_numbers() {
    let mut table = SymbolTable::new();
    assert!(table.is_empty());
    assert_eq!(table.ensure("a"), 0);
    assert_eq!(table.ensure("b"), 1);
    assert_eq!(table.ensure("a"), 0);
    assert_eq!(table.find("b"), Some(1));
    assert_eq!(table.find("c"), None);
    assert_eq!(table.name(1), Some("b"));
    assert_eq!(table.name(2), None);
    assert_eq!(table.len(), 2);
    assert!(table.capacity() >= 2);
    assert!(table.footprint() >= 2);
}

#[test]
fn constants_are_shared() {
    let mut chunk = Chunk::new();
    let one = Value::num(1.0f64.to_bits());
    assert_eq!(chunk.add_constant(one), Some(0));
    assert_eq!(chunk.add_constant(Value::null()), Some(1));
    assert_eq!(chunk.add_constant(one), Some(0));
    assert_eq!(chunk.constants.len(), 2);
}

#[test]
fn jumps_are_patched() {
    let mut chunk = Chunk::new();
    let at = chunk.emit_jump(Op::JumpIf, 1);
    chunk.emit_op(Op::Pop, 1);
    chunk.emit_op(Op::Pop, 2);
    assert!(chunk.patch_jump(at));
    assert_eq!(chunk.read_short(at), 2);
    assert_eq!(chunk.line_at(0), 1);
    assert_eq!(chunk.line_at(3), 2);
}

#[test]
fn every_opcode_has_a_name() {
    let mut names = Vec::new();
    for byte in 0..=u8::MAX {
        if let Some(op) = Op::from_byte(byte) {
            assert!(!op.name().is_empty());
            names.push(op.name());
        }
    }
    let count = names.len();
    names.sort();
    names.dedup();
    assert_eq!(names.len(), count);
}

#[test]
fn a_listing_has_a_line_for_each_instruction() {
    let mut chunk = Chunk::new();
    chunk.emit_op(Op::Null, 1);
    chunk.emit_op(Op::Pop, 1);
    chunk.emit_op(Op::End, 2);
    assert_eq!(disassemble(&chunk).lines().count(), 3);
}

#[test]
fn an_object_costs_its_slot_and_what_it_holds() {
    let mut heap = Heap::new();
    let range = heap.allocate(Object::Range(wren::ObjRange {
        from: 0,
        to: 0,
        is_inclusive: true,
    }));
    assert_eq!(heap.size_at(range), std::mem::size_of::<Option<wren::ObjRange>>());
    let text = heap.allocate(string("some text"));
    assert!(heap.size_at(text) >= std::mem::size_of::<Option<ObjString>>() + 9);
    heap.collect(&vec![]);
    assert_eq!(heap.size_at(range), 0);
}

#[test]
fn a_table_gives_back_its_tail() {
    let mut table: wren::table::Table<ObjList> = wren::table::Table::new();
    let count = 3 * table.block();
    for _ in 0..count {
        table.allocate(ObjList::new());
    }
    assert_eq!(table.slots(), count);
    for index in 1..count {
        table.discard(index as u32);
    }
    table.trim();
    assert_eq!(table.slots(), table.block());
    assert_eq!(table.occupancy(), 1);
    table.discard(0);
    table.trim();
    assert_eq!(table.slots(), 0);
}

#[test]
fn constants_handed_over_are_shared_too() {
    let mut chunk = Chunk::from_parts(Vec::new(), vec![Value::bool(true)], Vec::new());
    assert_eq!(chunk.add_constant(Value::bool(true)), Some(0));
    assert_eq!(chunk.constants.len(), 1);
    assert_eq!(chunk.add_constant(Value::null()), Some(1));
}

#[test]
fn code_is_counted_in_bytes() {
    let mut chunk = Chunk::new();
    for _ in 0..10 {
        chunk.emit_op(Op::Pop, 1);
    }
    assert!(chunk.footprint().0 >= chunk.code.len() * std::mem::size_of::<u16>());
}

#[test]
fn the_peak_is_never_below_what_is_held() {
    let mut heap = Heap::new();
    let name = heap.allocate(string("C"));
    let class = heap.allocate(Object::Class(Box::new(wren::ObjClass::new(name, None))));
    let id = heap.new_instance(class, &[]);
    let before = heap.bytes();
    assert!(heap.set_instance_field(id, 99, Value::null()));
    assert_eq!(heap.bytes(), before + 100 * std::mem::size_of::<Value>());
    assert_eq!(heap.peak_bytes(), heap.bytes());
    let list = heap.allocate(Object::List(ObjList::new()));
    for _ in 0..1000 {
        heap.list_mut(list).unwrap().elements.push(Value::null());
    }
    let peak = heap.peak_bytes();
    heap.collect(&vec![Value::object(list), Value::object(id)]);
    assert!(heap.bytes() > peak);
    assert_eq!(heap.peak_bytes(), heap.bytes());
    let peak = heap.peak_bytes();
    heap.collect(&vec![]);
    assert!(heap.bytes() < peak);
    assert_eq!(heap.peak_bytes(), peak);
}

#[test]
fn a_swept_handle_still_names_its_type() {
    let mut heap = Heap::new();
    let id = heap.allocate(string("gone"));
    assert_eq!(heap.type_of(id), Some(ObjectType::String));
    assert_eq!(heap.kind_of(id), Some(ObjectType::String));
    heap.collect(&vec![]);
    assert_eq!(heap.type_of(id), None);
    assert_eq!(heap.kind_of(id), Some(ObjectType::String));
    let other = heap.allocate(Object::List(ObjList::new()));
    assert!(other != id);
    assert!(heap.string(id).is_none());
}

#[test]
fn a_headroom_moves_the_threshold() {
    let mut heap = Heap::new();
    let first = heap.threshold();
    heap.set_headroom(Some(1024));
    assert_eq!(heap.threshold(), 1024);
    assert_eq!(heap.headroom(), Some(1024));
    heap.allocate(string("text"));
    heap.set_headroom(Some(2048));
    assert_eq!(heap.threshold(), heap.bytes() + 2048);
    let threshold = heap.threshold();
    heap.set_headroom(None);
    assert_eq!(heap.headroom(), None);
    assert_eq!(heap.threshold(), threshold);
    heap.collect(&vec![]);
    assert_eq!(heap.threshold(), first);
}

#[test]
fn handles_are_listed_table_by_table() {
    let mut heap = Heap::new();
    let s = heap.allocate(string("s"));
    let a = heap.allocate(Object::List(ObjList::new()));
    let t = heap.allocate(string("t"));
    let b = heap.allocate(Object::List(ObjList::new()));
    assert_eq!(heap.ids(), vec![a, b, s, t]);
}

#[test]
fn blocks_are_sized_before_anything_is_allocated() {
    let mut heap = Heap::new();
    assert!(!heap.set_slot_block(0));
    assert!(!heap.set_slot_block(48));
    assert!(!heap.set_slot_block(8192));
    assert!(heap.set_slot_block(64));
    assert_eq!(heap.slot_block(), Some(64));
    assert!(heap.set_slot_block(32));
    heap.allocate(string("s"));
    assert!(!heap.set_slot_block(64));
    heap.collect(&vec![]);
    assert_eq!(heap.live(), 0);
    assert!(!heap.set_slot_block(64));
    assert_eq!(heap.slot_block(), Some(32));
}

#[test]
fn an_object_is_sized_by_the_room_it_has() {
    let slot = std::mem::size_of::<Object>();
    let range = Object::Range(wren::ObjRange { from: 0, to: 0, is_inclusive: false });
    assert_eq!(range.size_estimate(), slot);
    let list = Object::List(ObjList::new());
    assert_eq!(list.size_given(10), slot + 10 * std::mem::size_of::<Value>());
    assert_eq!(list.size_given(usize::MAX), usize::MAX);
    assert_eq!(string("four").size_given(7), slot + 7);
    assert!(string("four").size_estimate() >= slot + 4);
}

#[test]
fn names_are_sized_by_the_room_they_have() {
    let name = std::mem::size_of::<String>();
    assert_eq!(footprint_with(4, &vec![3, 5]), 4 * name + 8);
    assert_eq!(footprint_with(0, &vec![]), 0);
    assert_eq!(footprint_with(1, &vec![usize::MAX]), usize::MAX);
    let mut table = SymbolTable::new();
    table.ensure("name");
    assert!(table.footprint() >= name + 4);
}

#[test]
fn a_hole_that_is_used_again_is_given_back_as_it_was() {
    let mut memory = [0usize; 64];
    let mut heap = UHeap::new(&mut memory);
    let a = heap.allocate(10).unwrap();
    let b = heap.allocate(4).unwrap();
    assert!(heap.free(a));
    let (used, blocks, largest) = (heap.used(), heap.blocks(), heap.largest_free());
    assert_eq!(heap.allocate(6), Some(a));
    heap.block(a, 6)[5] = 7;
    assert_eq!(heap.block(a, 6)[5], 7);
    assert!(heap.free(a));
    assert_eq!((heap.used(), heap.blocks(), heap.largest_free()), (used, blocks, largest));
    assert!(heap.peak() >= heap.used());
    assert!(heap.free(b));
    assert_eq!(heap.used(), 0);
}

#[test]
fn the_largest_run_is_what_can_be_had() {
    let mut memory = [0usize; 64];
    let mut heap = UHeap::new(&mut memory);
    let largest = heap.largest_free() as u16;
    assert_eq!(largest, 63);
    assert_eq!(heap.allocate(largest + 1), None);
    assert!(heap.allocate(largest).is_some());
    assert_eq!(heap.largest_free(), 0);
    assert_eq!(heap.allocate(1), None);
}

#[test]
fn cycles_are_told_from_other_garbage() {
    let mut heap = Heap::new();
    let list = |elements: Vec<Value>| Object::List(ObjList { elements });
    let hung = heap.allocate(string("hung"));
    let one = heap.allocate(list(vec![]));
    let two = heap.allocate(list(vec![Value::object(one), Value::object(hung)]));
    heap.list_mut(one).unwrap().elements.push(Value::object(two));
    let leaf = heap.allocate(string("leaf"));
    let tree = heap.allocate(list(vec![Value::object(leaf)]));
    assert_eq!(heap.profile_garbage(&vec![]), (2, 3));
    assert_eq!(heap.profile_garbage(&vec![Value::object(tree)]), (0, 3));
    assert_eq!(heap.profile_garbage(&vec![Value::object(two)]), (2, 0));
    assert_eq!(heap.live(), 5);
}

#[test]
fn what_a_block_holds_stays_while_others_come_and_go() {
    let mut memory = [0usize; 64];
    let mut heap = UHeap::new(&mut memory);
    let kept = heap.allocate(3).unwrap();
    for k in 0..3 {
        heap.block(kept, 3)[k] = 100 + k;
    }
    let gone = heap.allocate(5).unwrap();
    heap.block(gone, 5)[0] = 9;
    assert!(heap.free(gone));
    assert_eq!(heap.allocate(5), Some(gone));
    assert!(heap.alloc_aligned(2, 4).is_some());
    assert_eq!(heap.allocate(1000), None);
    assert!(!heap.free(60));
    assert_eq!(heap.block(kept, 3).to_vec(), vec![100, 101, 102]);
    assert_eq!(heap.refused(), 1);
}

#[test]
fn room_is_counted_exactly() {
    let word = std::mem::size_of::<u64>();
    let half = std::mem::size_of::<u32>();
    let rooms = TableRooms {
        listed: 2,
        blocks: vec![4, 8],
        free: 3,
        marks: 1,
        young: 5,
        young_bits: 1,
        remembered: 2,
        remembered_bits: 1,
    };
    let (slots, books) = Table::<ObjList>::footprint_with(&rooms);
    assert_eq!(
        slots,
        2 * std::mem::size_of::<Vec<Option<ObjList>>>()
            + 12 * std::mem::size_of::<Option<ObjList>>()
    );
    assert_eq!(books, 10 * half + 3 * word);
    let list = std::mem::size_of::<Vec<Value>>();
    let rooms = FieldRooms { held: 1, chunks: vec![16], waiting: 2, spares: vec![3, 4] };
    assert_eq!(FieldArena::footprint_with(&rooms), 3 * list + 23 * std::mem::size_of::<Value>());
}

#[test]
fn a_heap_starts_with_nothing_and_its_defaults() {
    let heap = Heap::default();
    assert_eq!(heap.live(), 0);
    assert_eq!(heap.collections(), 0);
    assert_eq!(heap.growth(), Heap::new().growth());
    assert_eq!(heap.headroom(), None);
    assert_eq!(heap.slot_block(), Heap::new().slot_block());
    assert!(Chunk::default().code.is_empty());
}

#[test]
fn what_the_heap_does_is_tallied_while_asked_for() {
    let mut heap = Heap::new();
    heap.allocate(string("before"));
    assert_eq!(heap.profile().allocated, [0; 10]);
    heap.set_profiling(true);
    let list = |elements: Vec<Value>| Object::List(ObjList { elements });
    let kept = heap.allocate(string("kept"));
    let holder = heap.allocate(list(vec![Value::object(kept)]));
    heap.allocate(string("lost"));
    let profile = *heap.profile();
    assert_eq!(profile.allocated[ObjectType::String.tag() as usize], 2);
    assert_eq!(profile.allocated[ObjectType::List.tag() as usize], 1);
    assert_eq!(profile.young_allocated, 3);
    assert_eq!(profile.peak_live, 4);
    assert_eq!(profile.peak_bytes, heap.bytes());
    assert!(profile.allocated_bytes > 0);

    heap.collect_minor(&vec![holder]);
    let profile = *heap.profile();
    assert_eq!(profile.minor_collections, 1);
    assert_eq!(profile.marked, 2);
    assert_eq!(profile.promoted, 2);
    assert_eq!(profile.freed_young, 2);

    let one = heap.allocate(list(vec![]));
    let two = heap.allocate(list(vec![Value::object(one)]));
    heap.list_mut(one).unwrap().elements.push(Value::object(two));
    heap.allocate(string("alone"));
    heap.collect(&vec![Value::object(holder)]);
    let profile = *heap.profile();
    assert_eq!(profile.collections, 1);
    assert_eq!(profile.marked, 4);
    assert_eq!(profile.live_before, 5);
    assert_eq!(profile.survived, 2);
    assert_eq!(profile.swept, 3);
    assert_eq!(profile.garbage_acyclic, 1);
    assert_eq!(profile.garbage_cyclic, 2);
    assert_eq!(profile.young_survived, 2);
    assert!(profile.slots_swept >= 5);
    assert_eq!(profile.peak_live, 5);
    assert_eq!((profile.freed_promptly, profile.flushes), (0, 0));

    heap.set_profiling(false);
    heap.allocate(string("after"));
    heap.collect(&vec![]);
    assert_eq!(heap.profile().collections, 1);
    assert_eq!(heap.profile().young_allocated, 6);
}
