//! A core library built into the image rather than into memory.
//!
//! Which classes exist, which methods they answer to and the number of every
//! method symbol are settled when the image is built. What is generated then is
//! checked against what the running machine interns, because a method table is
//! a list of numbers and a wrong number names a plausible, wrong method.

use vstd::prelude::*;
use vstd::string::*;

use crate::handle::ObjectId;
use crate::object::{ObjClass, ObjectType};
use crate::symbol::SymbolTable;
use crate::text::{push_decimal, same_text};

verus! {

/// A core library computed when the image was built.
///
/// The tables are positional: the name of `classes[i]` is `class_names[i]`, and
/// both become handles with index `i`.
pub struct FrozenCore {
    /// Each class's name, in the order of their handles.
    pub class_names: &'static [&'static str],
    /// The classes themselves, with their method tables already flattened.
    pub classes: &'static [ObjClass],
    /// Every method signature, in the order of the symbols.
    pub symbols: &'static [&'static str],
    /// How many primitives there were when this was generated.
    pub primitives: usize,
}

/// What is said of a core that was generated with other primitives.
pub open spec fn primitives_message(generated: nat, registered: nat) -> Seq<char> {
    "the frozen core was generated against "@ + crate::text::decimal(generated)
        + " primitives, this build registers "@ + crate::text::decimal(registered)
        + " -- it was almost certainly generated with a different feature set (`core_full`, `nofp`), and every method entry in it indexes the wrong primitive"@
}

/// What is said of a core that has another number of symbols.
pub open spec fn count_message(frozen: nat, interned: nat) -> Seq<char> {
    "the frozen core has "@ + crate::text::decimal(frozen) + " symbols, this build interns "@
        + crate::text::decimal(interned)
}

/// What is said of a core in which a symbol is another.
pub open spec fn symbol_message(symbol: nat, actual: Seq<char>, expected: Seq<char>) -> Seq<char> {
    "symbol "@ + crate::text::decimal(symbol) + " is '"@ + actual + "' here and '"@ + expected
        + "' in the frozen core"@
}

impl FrozenCore {
    /// The handle of the class with this name, if the core has one.
    pub fn class_named(&self, name: &str) -> (r: Option<ObjectId>)
        requires
            self.class_names@.len() <= 0x1000_0000,
        ensures
            match r {
                Some(id) => {
                    &&& id.spec_tag() == ObjectType::Class.spec_tag()
                    &&& id.spec_index() < self.class_names@.len()
                    &&& self.class_names@[id.spec_index() as int]@ == name@
                    &&& forall|i: int|
                        0 <= i < id.spec_index() ==> (#[trigger] self.class_names@[i])@ != name@
                },
                None => forall|i: int|
                    0 <= i < self.class_names@.len() ==> (#[trigger] self.class_names@[i])@
                        != name@,
            },
    {
        let mut i: usize = 0;
        while i < self.class_names.len()
            invariant
                i <= self.class_names@.len() <= 0x1000_0000,
                forall|k: int| 0 <= k < i ==> (#[trigger] self.class_names@[k])@ != name@,
            decreases self.class_names@.len() - i,
        {
            if same_text(self.class_names[i], name) {
                return Some(ObjectId::tagged(ObjectType::Class.tag(), i as u32));
            }
            i = i + 1;
        }
        None
    }

    /// Whether a symbol is the same here and in the core.
    pub open spec fn agrees(&self, interned: &SymbolTable, symbol: int) -> bool {
        interned@[symbol] == self.symbols@[symbol]@
    }

    /// Why this core does not match the machine built from it, if it does not.
    pub fn disagreement(&self, interned: &SymbolTable, primitives: usize) -> (r: Option<String>)
        ensures
            r is None <==> primitives == self.primitives && interned@.len() == self.symbols@.len()
                && forall|i: int|
                0 <= i < self.symbols@.len() ==> #[trigger] self.agrees(interned, i),
            r matches Some(message) ==> if primitives != self.primitives {
                message@ == primitives_message(self.primitives as nat, primitives as nat)
            } else if interned@.len() != self.symbols@.len() {
                message@ == count_message(self.symbols@.len(), interned@.len())
            } else {
                exists|i: int|
                    0 <= i < self.symbols@.len() && !#[trigger] self.agrees(interned, i) && (
                    forall|k: int| 0 <= k < i ==> #[trigger] self.agrees(interned, k)) && message@
                        == symbol_message(i as nat, interned@[i], self.symbols@[i]@)
            },
    {
        if primitives != self.primitives {
            let mut message: String = String::new();
            message.append("the frozen core was generated against ");
            push_decimal(&mut message, self.primitives as u64);
            message.append(" primitives, this build registers ");
            push_decimal(&mut message, primitives as u64);
            message.append(
                " -- it was almost certainly generated with a different feature set (`core_full`, `nofp`), and every method entry in it indexes the wrong primitive",
            );
            proof {
                assert(message@ =~= primitives_message(self.primitives as nat, primitives as nat));
            }
            return Some(message);
        }
        if interned.len() != self.symbols.len() {
            let mut message: String = String::new();
            message.append("the frozen core has ");
            push_decimal(&mut message, self.symbols.len() as u64);
            message.append(" symbols, this build interns ");
            push_decimal(&mut message, interned.len() as u64);
            proof {
                assert(message@ =~= count_message(self.symbols@.len(), interned@.len()));
            }
            return Some(message);
        }
        let mut i: usize = 0;
        while i < self.symbols.len()
            invariant
                i <= self.symbols@.len(),
                primitives == self.primitives,
                interned@.len() == self.symbols@.len(),
                forall|k: int| 0 <= k < i ==> #[trigger] self.agrees(interned, k),
            decreases self.symbols@.len() - i,
        {
            match interned.name(i) {
                Some(actual) => {
                    if !same_text(actual, self.symbols[i]) {
                        let mut message: String = String::new();
                        message.append("symbol ");
                        push_decimal(&mut message, i as u64);
                        message.append(" is '");
                        message.append(actual);
                        message.append("' here and '");
                        message.append(self.symbols[i]);
                        message.append("' in the frozen core");
                        proof {
                            assert(message@ =~= symbol_message(
                                i as nat,
                                interned@[i as int],
                                self.symbols@[i as int]@,
                            ));
                            assert(!self.agrees(interned, i as int));
                        }
                        return Some(message);
                    }
                },
                None => {},
            }
            i = i + 1;
        }
        None
    }
}

} // verus!
