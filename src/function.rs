//! The signature of a bound method.
use vstd::prelude::*;
use vstd::string::StringExecFns;
use crate::datatype::{DataType, TypeName};
use crate::mangle::{Mangle, mangled_text};

verus! {

/// A named argument.
#[derive(Debug)]
pub struct Argument {
    pub name: String,
    pub arg_type: DataType,
}

/// A method: how it takes `self`, its arguments and its result.
#[derive(Debug)]
pub struct Function {
    pub self_kind: SelfKind,
    pub args: Vec<Argument>,
    pub return_type: DataType,
}

/// How a method takes `self`.
#[derive(Debug, Copy, Clone, PartialEq, Eq, Structural)]
pub enum SelfKind {
    Ref,
    Mut,
}

impl SelfKind {
    /// The pointer type `self` is passed as.
    pub fn as_ptr(self) -> (r: DataType)
        ensures
            r == (if self == SelfKind::Ref { DataType::ConstPtr } else { DataType::MutPtr }),
    {
        match self {
            SelfKind::Ref => DataType::ConstPtr,
            SelfKind::Mut => DataType::MutPtr,
        }
    }
}

/// A method of a bound type.
#[derive(Debug, Clone)]
pub struct Method {
    pub bound_type: TypeName,
    pub method_name: String,
}

impl Mangle for Method {
    open spec fn mangled(&self) -> Seq<char> {
        "_rustcxx_binding_"@ + self.bound_type.mangled() + "_m_"@ + mangled_text(self.method_name@)
    }

    fn mangle_to(&self, out: &mut String) {
        out.append("_rustcxx_binding_");
        self.bound_type.mangle_to(out);
        out.append("_m_");
        let name: &str = self.method_name.as_str();
        name.mangle_to(out);
        assert(out@ =~= old(out)@ + self.mangled());
    }
}

} // verus!
