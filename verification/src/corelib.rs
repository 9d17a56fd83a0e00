//! The core library: the methods that every program has.

pub mod arguments;
pub mod bindings;
pub mod equality;
pub mod family;
pub mod fiber_laws;
pub mod fiber_methods;
pub mod install;
pub mod list_laws;
pub mod list_methods;
pub mod lists;
pub mod map_laws;
pub mod maps;
pub mod name_laws;
pub mod number_laws;
pub mod numbers;
pub mod object_laws;
pub mod objects;
pub mod perform;
pub mod primitive;
pub mod random;
pub mod random_laws;
pub mod ranges;
pub mod reply;
pub mod sequence_laws;
pub mod sequences;
pub mod slices;
pub mod string_laws;
pub mod string_methods;
pub mod strings;
pub mod tables;
pub mod task_laws;
pub mod tasks;
pub mod views;
