//! The machine and the core library, a method at a time.

use std::rc::Rc;

use wren::bytecode::Chunk;
use wren::compiler::literals::make_literals;
use wren::compiler::words::tokenize;
use wren::compiler::{compile, empty_list};
use wren::corelib::equality::values_equal;
use wren::corelib::install::install_random;
use wren::corelib::lists::{list_elements, new_list};
use wren::corelib::maps::{map_get, map_index, map_set};
use wren::corelib::perform::perform;
use wren::corelib::primitive::Primitive;
use wren::corelib::random::{spans, Words};
use wren::corelib::reply::{Drawing, Reply};
use wren::corelib::slices::slice_indices;
use wren::corelib::strings::{
    begins_with, comes_before, ends_with, find_from, repeat, split, text_of_code_point, trim,
};
use wren::object::{ObjRange, ObjString, Object, ObjectType};
use wren::vm::modules::Source;
use wren::vm::paths::resolve_module;
use wren::vm::step::{Outcome, Run};
use wren::vm::NURSERY_OBJECTS;
use wren::{Heap, ObjectId, Value, Vm};

fn num(n: f64) -> Value {
    Value::num(n.to_bits())
}

/// Carry out a method that needs nothing from outside.
fn done(vm: &mut Vm, primitive: Primitive, given: &[Value]) -> Result<Value, String> {
    let at = vm.stack.len();
    for value in given {
        vm.stack.push(*value);
    }
    let reply = perform(vm, primitive, at);
    vm.stack.truncate(at);
    match reply {
        Reply::Done(Ok(value)) => Ok(value),
        Reply::Done(Err(error)) => Err(error.message),
        _ => panic!("the method needs something from outside"),
    }
}

#[test]
fn lists_change_in_place() {
    let mut vm = Vm::new();
    let list = empty_list(&mut vm);
    assert_eq!(list_elements(&vm, list), vec![]);
    assert_eq!(done(&mut vm, Primitive::ListAdd, &[list, num(1.0)]), Ok(num(1.0)));
    done(&mut vm, Primitive::ListAdd, &[list, num(2.0)]).unwrap();
    assert_eq!(list_elements(&vm, list), vec![num(1.0), num(2.0)]);
    assert_eq!(done(&mut vm, Primitive::ListCount, &[list]), Ok(num(2.0)));
    assert_eq!(done(&mut vm, Primitive::ListClear, &[list]), Ok(Value::null()));
    assert_eq!(list_elements(&vm, list), vec![]);
}

#[test]
fn other_lists_stay() {
    let mut vm = Vm::new();
    let a = new_list(&mut vm, vec![num(1.0)]);
    let b = new_list(&mut vm, vec![num(2.0)]);
    done(&mut vm, Primitive::ListAdd, &[a, num(3.0)]).unwrap();
    assert_eq!(list_elements(&vm, b), vec![num(2.0)]);
}

#[test]
fn maps_give_back_what_was_put_in() {
    let mut vm = Vm::new();
    let map = match wren::corelib::maps::new_map(&mut vm) {
        Reply::Done(Ok(map)) => map,
        _ => panic!("a map is made"),
    };
    let key = vm.new_string("key");
    let same = vm.new_string("key");
    assert!(map_set(&mut vm, map, key, num(1.0)).is_ok());
    assert!(map_set(&mut vm, map, num(5.0), num(2.0)).is_ok());
    assert_eq!(map_get(&vm, map, same), Some(num(1.0)));
    assert_eq!(map_get(&vm, map, num(5.0)), Some(num(2.0)));
    assert_eq!(map_get(&vm, map, num(6.0)), None);
    assert!(map_index(&vm, map, num(6.0)).is_none());
    assert!(map_set(&mut vm, map, same, num(3.0)).is_ok());
    assert_eq!(map_get(&vm, map, key), Some(num(3.0)));
}

#[test]
fn equality_looks_inside_strings_and_ranges() {
    let mut vm = Vm::new();
    let a = vm.new_string("x");
    let b = vm.new_string("x");
    let c = vm.new_string("y");
    assert!(values_equal(&vm, a, b));
    assert!(!values_equal(&vm, a, c));
    assert!(values_equal(&vm, num(0.0), num(-0.0)));
    assert!(!values_equal(&vm, num(0.0), Value::null()));
}

#[test]
fn string_helpers() {
    assert_eq!(find_from(b"hello", b"l", 0), Some(2));
    assert_eq!(find_from(b"hello", b"l", 3), Some(3));
    assert_eq!(find_from(b"hello", b"z", 0), None);
    assert!(begins_with(b"hello", b"he"));
    assert!(ends_with(b"hello", b"lo"));
    assert!(comes_before(b"abc", b"abd"));
    assert!(!comes_before(b"abc", b"abc"));
    assert!(comes_before(b"ab", b"abc"));
    assert_eq!(repeat(b"ab", 3), b"ababab".to_vec());
    assert_eq!(
        split(b"a,b,,c", b","),
        vec![b"a".to_vec(), b"b".to_vec(), b"".to_vec(), b"c".to_vec()]
    );
    assert_eq!(trim("  x ", true, true), "x");
    assert_eq!(trim("  x ", false, true), "  x");
    assert_eq!(text_of_code_point(0x41), Some("A".to_string()));
    assert_eq!(text_of_code_point(0x1f600), Some("\u{1f600}".to_string()));
    assert_eq!(text_of_code_point(0xd800), None);
}

#[test]
fn slices_go_either_way() {
    let range = |from: f64, to: f64, is_inclusive: bool| ObjRange {
        from: from.to_bits(),
        to: to.to_bits(),
        is_inclusive,
    };
    assert_eq!(slice_indices(&range(0.0, 2.0, true), 4).ok(), Some(vec![0, 1, 2]));
    assert_eq!(slice_indices(&range(1.0, -1.0, true), 4).ok(), Some(vec![1, 2, 3]));
    assert_eq!(slice_indices(&range(2.0, 0.0, true), 4).ok(), Some(vec![2, 1, 0]));
    assert_eq!(slice_indices(&range(0.0, 2.0, false), 4).ok(), Some(vec![0, 1]));
    assert!(slice_indices(&range(0.0, 9.0, true), 4).is_err());
}

#[test]
fn shown_text_is_lossy() {
    let mut vm = Vm::new();
    let bad = vm.new_string_bytes(vec![0x61, 0xff, 0x62]);
    assert_eq!(vm.text(bad), Some("a\u{fffd}b".to_string()));
    assert_eq!(vm.string_at(bad), None);
    assert_eq!(vm.stringified(num(1.0)), "[invalid toString]");
}

#[test]
fn module_names_are_resolved() {
    assert_eq!(resolve_module("main", "random"), "random");
    assert_eq!(resolve_module("a/b", "./c"), "a/c");
    assert_eq!(resolve_module("a/b", "../c"), "c");
    assert_eq!(resolve_module("main", "../c"), "../c");
    assert_eq!(resolve_module("main", "./c"), "./c");
}

#[test]
fn a_booted_machine_knows_its_classes() {
    let vm = Vm::new();
    assert_eq!(vm.class_of(num(1.0)), Some(vm.num_class));
    assert_eq!(vm.class_of(Value::bool(true)), Some(vm.bool_class));
    assert_eq!(vm.class_of(Value::null()), Some(vm.null_class));
    assert_eq!(vm.class_name(vm.num_class), "Num");
    assert!(vm.modules[0].get("List").is_some());
    assert!(vm.modules[0].get("Nothing").is_none());
    assert_eq!(vm.module_source("random"), Source::BuiltIn);
    assert_eq!(vm.module_source("elsewhere"), Source::Elsewhere);
}

#[test]
fn the_random_module_is_there_once_it_is_asked_for() {
    let mut vm = Vm::new();
    let index = install_random(&mut vm);
    assert_eq!(vm.module_source("random"), Source::Loaded(index));
    assert!(vm.modules[index].get("Random").is_some());
}

#[test]
fn the_generator_never_dies() {
    let mut words = Words::seeded(0);
    let mut last = words.step();
    let mut changed = false;
    for _ in 0..100 {
        let next = words.step();
        changed = changed || next != last;
        last = next;
    }
    assert!(changed);
}

#[test]
fn compiling_keeps_the_numbers_of_names() {
    let mut vm = Vm::new();
    let names: Vec<String> =
        (0..vm.method_names.len()).map(|i| vm.method_names.name(i).unwrap().to_string()).collect();
    let source = "var brand = 1\nbrand.newMethod(1, 2)";
    let tokens = tokenize(source);
    let numbers = tokens.iter().map(|_| Some(1.0f64.to_bits())).collect();
    let literals = make_literals(&mut vm, source.as_bytes(), &tokens, &numbers).unwrap();
    assert!(compile(&mut vm, 0, source.as_bytes(), &tokens, &literals).is_ok());
    for (i, name) in names.iter().enumerate() {
        assert_eq!(vm.method_names.name(i), Some(name.as_str()));
    }
    assert!(vm.method_names.find("newMethod(_,_)").is_some());
    assert!(vm.modules[0].get("brand").is_some());
}

#[test]
fn a_module_starts_with_the_core() {
    let mut vm = Vm::new();
    vm.modules[0].define("mine", Value::null());
    let index = vm.add_module("other");
    assert!(vm.modules[index].get("System").is_some());
    assert!(vm.modules[index].get("mine").is_none());
    assert_eq!(vm.module_source("other"), Source::Loaded(index));
}

#[test]
fn each_choice_is_among_one_fewer() {
    assert_eq!(spans(Drawing::One, 4), Some(vec![4]));
    assert_eq!(spans(Drawing::One, 0), None);
    assert_eq!(spans(Drawing::Many(3), 5), Some(vec![5, 4, 3]));
    assert_eq!(spans(Drawing::Many(6), 5), None);
    assert_eq!(spans(Drawing::Order, 4), Some(vec![4, 3, 2]));
    assert_eq!(spans(Drawing::Order, 0), Some(vec![]));
}

#[test]
fn no_number_equals_nothing() {
    let vm = Vm::new();
    let nan = num(f64::NAN);
    assert!(!values_equal(&vm, nan, nan));
    assert!(values_equal(&vm, num(0.0), num(-0.0)));
    assert!(values_equal(&vm, Value::null(), Value::null()));
    assert!(!values_equal(&vm, num(0.0), Value::null()));
}

#[test]
fn lists_are_shown_as_deep_as_they_go() {
    let mut vm = Vm::new();
    let mut value = num(1.0);
    for _ in 0..40 {
        value = new_list(&mut vm, vec![value]);
    }
    assert!(vm.shown(value, 39).is_none());
    let shown = vm.shown(value, 40).unwrap();
    assert_eq!(shown.len(), 81);
    assert_eq!(vm.shown(value, usize::MAX).unwrap().len(), 81);
}

#[test]
fn a_class_is_known_from_the_handle() {
    let vm = Vm::new();
    let list = Value::object(ObjectId::tagged(ObjectType::List.tag(), 9999));
    assert_eq!(vm.class_of(list), Some(vm.list_class));
    let instance = Value::object(ObjectId::tagged(ObjectType::Instance.tag(), 9999));
    assert_eq!(vm.class_of(instance), None);
}

#[test]
fn a_machine_keeps_the_settings_and_objects_of_its_heap() {
    let mut heap = Heap::new();
    heap.set_growth(3, 2);
    heap.set_headroom(Some(4096));
    assert!(heap.set_slot_block(128));
    let held = heap.allocate(Object::String(ObjString::from_text("held")));
    let vm = Vm::with_heap(heap);
    assert_eq!(vm.heap.growth(), (3, 2));
    assert_eq!(vm.heap.headroom(), Some(4096));
    assert_eq!(vm.heap.slot_block(), Some(128));
    assert_eq!(vm.heap.string(held).and_then(|text| text.as_str()), Some("held"));
}

#[test]
fn the_random_module_leaves_what_was_there() {
    let mut vm = Vm::new();
    let list = new_list(&mut vm, vec![num(1.0)]);
    let names = vm.method_names.len();
    let primitives = vm.primitives.len();
    let growth = vm.heap.growth();
    install_random(&mut vm);
    assert_eq!(list_elements(&vm, list), vec![num(1.0)]);
    assert!(vm.method_names.len() >= names);
    assert!(vm.primitives.len() > primitives);
    assert_eq!(vm.heap.growth(), growth);
    assert_eq!(vm.class_name(vm.random_class), "Random");
    let metaclass = vm.heap.class(vm.random_class).unwrap().metaclass.unwrap();
    assert_eq!(vm.class_name(metaclass), "Random metaclass");
}

#[test]
fn a_collection_settles_the_figures() {
    let mut vm = Vm::new();
    for _ in 0..10 {
        new_list(&mut vm, vec![num(1.0)]);
    }
    let before = vm.heap.live();
    assert!(vm.heap.young() >= 10);
    vm.collect_young();
    assert_eq!(vm.heap.young(), 0);
    assert_eq!(vm.heap.live(), before - 10);
    assert_eq!(vm.heap.collections(), 0);
    vm.heap.set_headroom(Some(1000));
    vm.collect_garbage();
    assert_eq!(vm.heap.collections(), 1);
    assert_eq!(vm.heap.young(), 0);
    assert_eq!(vm.heap.threshold(), vm.heap.bytes() + 1000);
}

#[test]
fn a_method_leaves_the_line_of_its_error_open() {
    let mut vm = Vm::new();
    let at = vm.stack.len();
    let list = new_list(&mut vm, vec![]);
    vm.stack.push(list);
    vm.stack.push(num(0.5));
    match perform(&mut vm, Primitive::ListAt, at) {
        Reply::Done(Err(error)) => assert_eq!(error.line, 0),
        _ => panic!("there is no such element"),
    }
}

#[test]
fn what_is_computed_is_put_on_the_stack_and_the_nursery_emptied() {
    let mut vm = Vm::new();
    let kept = new_list(&mut vm, vec![num(7.0)]);
    vm.stack.push(kept);
    while vm.heap.young() < NURSERY_OBJECTS {
        new_list(&mut vm, vec![]);
    }
    let run = Run { chunk: Rc::new(Chunk::new()), ip: 0, base: 0, module: 0, floor: 0 };
    vm.answer(&run, num(2.0));
    assert_eq!(vm.stack.last().copied(), Some(num(2.0)));
    assert_eq!(vm.heap.young(), 0);
    assert_eq!(list_elements(&vm, kept), vec![num(7.0)]);
    let at = vm.stack.len();
    vm.stack.push(num(1.0));
    while vm.heap.young() < NURSERY_OBJECTS {
        new_list(&mut vm, vec![]);
    }
    let made = new_list(&mut vm, vec![num(3.0)]);
    let mut run = run;
    assert!(matches!(vm.finish_primitive(&mut run, Ok(made), at, 1), Outcome::Next));
    assert_eq!(vm.stack.len(), at + 1);
    assert_eq!(vm.heap.young(), 0);
    assert_eq!(list_elements(&vm, made), vec![num(3.0)]);
}
