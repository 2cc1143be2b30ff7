//! The bindings configuration: the methods to bind, by type.
use vstd::prelude::*;
use std::collections::HashMap;
use crate::datatype::TypeName;
use crate::function::Function;

verus! {

/// The methods of one type, by name.
#[derive(Debug)]
pub struct TypeBindings {
    pub methods: HashMap<String, Function>,
}

/// The bound types, by name.
#[derive(Debug)]
pub struct Bindings(pub HashMap<TypeName, TypeBindings>);

} // verus!
