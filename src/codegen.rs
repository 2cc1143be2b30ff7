//! Generation of C++ declarations for methods bound through C: an
//! `extern "C"` declaration per method, and a reference class per type.
use vstd::prelude::*;
use vstd::string::StringExecFns;
use vstd::utf8::encode_utf8;
use crate::datatype::{TypeName, sep_pos};
use crate::mangle::{mangle_bytes, mangle_bytes_to};

verus! {

/// How a method takes `self`.
#[derive(Debug, Copy, Clone, PartialEq, Eq, Structural)]
pub enum SelfKind {
    Ref,
    Mut,
}

/// A primitive argument or result type.
#[derive(Debug, Copy, Clone, PartialEq, Eq, Structural)]
pub enum ArgType {
    U8,
    U16,
    U32,
    U64,
    Usize,
    I8,
    I16,
    I32,
    I64,
    Bool,
    ConstPtr,
    MutPtr,
}

/// A named argument.
#[derive(Debug, Clone)]
pub struct Argument {
    pub name: String,
    pub arg_type: ArgType,
}

/// A method: how it takes `self`, its arguments and its result.
#[derive(Debug, Clone)]
pub struct Function {
    pub self_kind: SelfKind,
    pub args: Vec<Argument>,
    pub return_type: ArgType,
}

/// The methods of a type, by name, in the order to emit them.
#[derive(Debug, Clone)]
pub struct FunctionMap(pub Vec<(String, Function)>);

/// The bound types, by path (`ns::Type`), in the order to emit them.
#[derive(Debug, Clone)]
pub struct TypeMap(pub Vec<(String, FunctionMap)>);

pub open spec fn ptr_type(k: SelfKind) -> ArgType {
    if k == SelfKind::Ref {
        ArgType::ConstPtr
    } else {
        ArgType::MutPtr
    }
}

/// The C spelling of a type.
pub open spec fn c_name(t: ArgType) -> Seq<char> {
    match t {
        ArgType::U8 => "uint8_t"@,
        ArgType::U16 => "uint16_t"@,
        ArgType::U32 => "uint32_t"@,
        ArgType::U64 => "uint64_t"@,
        ArgType::Usize => "size_t"@,
        ArgType::I8 => "int8_t"@,
        ArgType::I16 => "int16_t"@,
        ArgType::I32 => "int32_t"@,
        ArgType::I64 => "int64_t"@,
        ArgType::Bool => "bool"@,
        ArgType::ConstPtr => "const void*"@,
        ArgType::MutPtr => "void*"@,
    }
}

/// The C symbol of method `f` of type `t`.
pub open spec fn mangled_name(t: Seq<char>, f: Seq<char>) -> Seq<char> {
    "_rustcxx_binding_"@ + mangle_bytes(encode_utf8(t), false) + "_m_"@ + mangle_bytes(encode_utf8(f), false)
}

/// `, type name` for each of the first `n` arguments.
pub open spec fn decl_args(args: Seq<Argument>, n: int) -> Seq<char>
    decreases n,
{
    if n <= 0 {
        Seq::empty()
    } else {
        decl_args(args, n - 1) + ", "@ + c_name(args[n - 1].arg_type) + " "@ + args[n - 1].name@
    }
}

/// The `extern "C"` declaration of method `fname` of type `t`.
pub open spec fn decl_line(t: Seq<char>, fname: Seq<char>, f: Function) -> Seq<char> {
    "extern \"C\" "@ + c_name(f.return_type) + " "@ + mangled_name(t, fname) + "("@ + c_name(ptr_type(f.self_kind))
        + " self"@ + decl_args(f.args@, f.args@.len() as int) + ");\n"@
}

/// The declarations of the first `n` methods of type `t`.
pub open spec fn decl_lines(fm: Seq<(String, Function)>, t: Seq<char>, n: int) -> Seq<char>
    decreases n,
{
    if n <= 0 {
        Seq::empty()
    } else {
        decl_lines(fm, t, n - 1) + decl_line(t, fm[n - 1].0@, fm[n - 1].1)
    }
}

/// The declarations of the first `n` types, each followed by an empty line.
pub open spec fn decl_blocks(tm: Seq<(String, FunctionMap)>, n: int) -> Seq<char>
    decreases n,
{
    if n <= 0 {
        Seq::empty()
    } else {
        decl_blocks(tm, n - 1) + decl_lines(tm[n - 1].1.0@, tm[n - 1].0@, tm[n - 1].1.0@.len() as int) + "\n"@
    }
}

/// `type name` for each of the first `n` arguments, comma-separated.
pub open spec fn params(args: Seq<Argument>, n: int) -> Seq<char>
    decreases n,
{
    if n <= 0 {
        Seq::empty()
    } else {
        params(args, n - 1) + (if n == 1 { Seq::empty() } else { ", "@ }) + c_name(args[n - 1].arg_type) + " "@
            + args[n - 1].name@
    }
}

/// The member declaration of method `fname`.
pub open spec fn method_line(fname: Seq<char>, f: Function) -> Seq<char> {
    c_name(f.return_type) + " "@ + fname + "("@ + params(f.args@, f.args@.len() as int) + ")"@ + (if f.self_kind
        == SelfKind::Ref {
        " const"@
    } else {
        Seq::empty()
    }) + ";\n"@
}

/// The member declarations of the first `n` methods.
pub open spec fn method_lines(fm: Seq<(String, Function)>, n: int) -> Seq<char>
    decreases n,
{
    if n <= 0 {
        Seq::empty()
    } else {
        method_lines(fm, n - 1) + method_line(fm[n - 1].0@, fm[n - 1].1)
    }
}

pub open spec fn namespace_of(t: Seq<char>) -> Seq<char> {
    t.subrange(0, sep_pos(t))
}

pub open spec fn base_of(t: Seq<char>) -> Seq<char> {
    t.subrange(sep_pos(t) + 2, t.len() as int)
}

/// The reference class of type `t` inside its namespace.
pub open spec fn class_block(t: Seq<char>, fm: Seq<(String, Function)>) -> Seq<char> {
    "namespace "@ + namespace_of(t) + " {\n"@ + "class "@ + base_of(t) + "Ref {\n"@ + "public:\n"@
        + method_lines(fm, fm.len() as int) + "private:\n"@ + "    "@ + base_of(t) + "Ref() = delete;\n"@
        + "    void* m_ptr;\n"@ + "}\n"@ + "} // namespace "@ + namespace_of(t) + "\n"@ + "\n"@
}

/// The classes of the first `n` types.
pub open spec fn class_blocks(tm: Seq<(String, FunctionMap)>, n: int) -> Seq<char>
    decreases n,
{
    if n <= 0 {
        Seq::empty()
    } else {
        class_blocks(tm, n - 1) + class_block(tm[n - 1].0@, tm[n - 1].1.0@)
    }
}

/// The whole generated source.
pub open spec fn source_text(tm: Seq<(String, FunctionMap)>) -> Seq<char> {
    decl_blocks(tm, tm.len() as int) + class_blocks(tm, tm.len() as int)
}

/// Every type path has a namespace.
pub open spec fn all_namespaced(tm: Seq<(String, FunctionMap)>) -> bool {
    forall|i: int| 0 <= i < tm.len() ==> sep_pos(#[trigger] tm[i].0@) >= 0
}

fn lit(s: &str) -> (r: String)
    ensures
        r@ == s@,
{
    String::from_str(s)
}

impl SelfKind {
    /// The pointer type `self` is passed as.
    pub fn as_ptr(self) -> (r: ArgType)
        ensures
            r == ptr_type(self),
    {
        match self {
            SelfKind::Ref => ArgType::ConstPtr,
            SelfKind::Mut => ArgType::MutPtr,
        }
    }
}

impl ArgType {
    /// The C spelling of the type.
    pub fn c_name(&self) -> (r: String)
        ensures
            r@ == c_name(*self),
    {
        match self {
            ArgType::U8 => lit("uint8_t"),
            ArgType::U16 => lit("uint16_t"),
            ArgType::U32 => lit("uint32_t"),
            ArgType::U64 => lit("uint64_t"),
            ArgType::Usize => lit("size_t"),
            ArgType::I8 => lit("int8_t"),
            ArgType::I16 => lit("int16_t"),
            ArgType::I32 => lit("int32_t"),
            ArgType::I64 => lit("int64_t"),
            ArgType::Bool => lit("bool"),
            ArgType::ConstPtr => lit("const void*"),
            ArgType::MutPtr => lit("void*"),
        }
    }
}

/// Appends the mangling of `source` to `destination`, low hex digit first.
pub fn mangle_str(source: &str, destination: &mut String)
    ensures
        final(destination)@ == old(destination)@ + mangle_bytes(encode_utf8(source@), false),
{
    mangle_bytes_to(source.as_bytes(), false, destination);
}

/// The C symbol of method `func_name` of type `bound`.
pub fn mangle(bound: &str, func_name: &str) -> (r: String)
    ensures
        r@ == mangled_name(bound@, func_name@),
{
    let mut mangled = lit("_rustcxx_binding_");
    mangle_str(bound, &mut mangled);
    mangled.append("_m_");
    mangle_str(func_name, &mut mangled);
    mangled
}

fn decl_line_exec(t: &String, fname: &String, f: &Function) -> (r: String)
    ensures
        r@ == decl_line(t@, fname@, *f),
{
    let mut args = String::new();
    let mut i: usize = 0;
    while i < f.args.len()
        invariant
            i <= f.args.len(),
            args@ == decl_args(f.args@, i as int),
        decreases f.args.len() - i,
    {
        args.append(", ");
        args.append(f.args[i].arg_type.c_name().as_str());
        args.append(" ");
        args.append(f.args[i].name.as_str());
        i = i + 1;
    }
    let mut line = lit("extern \"C\" ");
    line.append(f.return_type.c_name().as_str());
    line.append(" ");
    line.append(mangle(t.as_str(), fname.as_str()).as_str());
    line.append("(");
    line.append(f.self_kind.as_ptr().c_name().as_str());
    line.append(" self");
    line.append(args.as_str());
    line.append(");\n");
    line
}

fn method_line_exec(fname: &String, f: &Function) -> (r: String)
    ensures
        r@ == method_line(fname@, *f),
{
    let mut ps = String::new();
    let mut i: usize = 0;
    while i < f.args.len()
        invariant
            i <= f.args.len(),
            ps@ == params(f.args@, i as int),
        decreases f.args.len() - i,
    {
        if i == 0 {
            assert(ps@ + Seq::<char>::empty() =~= ps@);
        } else {
            ps.append(", ");
        }
        ps.append(f.args[i].arg_type.c_name().as_str());
        ps.append(" ");
        ps.append(f.args[i].name.as_str());
        i = i + 1;
    }
    let mut line = f.return_type.c_name();
    line.append(" ");
    line.append(fname.as_str());
    line.append("(");
    line.append(ps.as_str());
    line.append(")");
    match f.self_kind {
        SelfKind::Ref => line.append(" const"),
        SelfKind::Mut => {
            assert(line@ + Seq::<char>::empty() =~= line@);
        },
    }
    line.append(";\n");
    line
}

fn class_block_exec(t: &String, fm: &FunctionMap) -> (r: String)
    requires
        sep_pos(t@) >= 0,
    ensures
        r@ == class_block(t@, fm.0@),
{
    let name = TypeName::new(t.clone());
    let ns = name.namespace();
    let base = name.base();
    let mut methods = String::new();
    let mut i: usize = 0;
    while i < fm.0.len()
        invariant
            i <= fm.0.len(),
            methods@ == method_lines(fm.0@, i as int),
        decreases fm.0.len() - i,
    {
        methods.append(method_line_exec(&fm.0[i].0, &fm.0[i].1).as_str());
        i = i + 1;
    }
    let mut out = lit("namespace ");
    out.append(ns.as_str());
    out.append(" {\n");
    out.append("class ");
    out.append(base.as_str());
    out.append("Ref {\n");
    out.append("public:\n");
    out.append(methods.as_str());
    out.append("private:\n");
    out.append("    ");
    out.append(base.as_str());
    out.append("Ref() = delete;\n");
    out.append("    void* m_ptr;\n");
    out.append("}\n");
    out.append("} // namespace ");
    out.append(ns.as_str());
    out.append("\n");
    out.append("\n");
    out
}

/// The C++ source for `config`: first the `extern "C"` declarations of
/// every method, type by type, each type followed by an empty line; then a
/// reference class per type inside its namespace.
pub fn generate_source(config: &TypeMap) -> (r: String)
    requires
        all_namespaced(config.0@),
    ensures
        r@ == source_text(config.0@),
{
    let tm = &config.0;
    let mut decls = String::new();
    let mut i: usize = 0;
    while i < tm.len()
        invariant
            i <= tm.len(),
            decls@ == decl_blocks(tm@, i as int),
        decreases tm.len() - i,
    {
        let fm = &tm[i].1.0;
        let mut lines = String::new();
        let mut j: usize = 0;
        while j < fm.len()
            invariant
                i < tm.len(),
                fm@ == tm@[i as int].1.0@,
                j <= fm.len(),
                lines@ == decl_lines(fm@, tm@[i as int].0@, j as int),
            decreases fm.len() - j,
        {
            lines.append(decl_line_exec(&tm[i].0, &fm[j].0, &fm[j].1).as_str());
            j = j + 1;
        }
        decls.append(lines.as_str());
        decls.append("\n");
        i = i + 1;
    }
    let mut classes = String::new();
    let mut k: usize = 0;
    while k < tm.len()
        invariant
            k <= tm.len(),
            all_namespaced(tm@),
            classes@ == class_blocks(tm@, k as int),
        decreases tm.len() - k,
    {
        assert(sep_pos(tm@[k as int].0@) >= 0);
        classes.append(class_block_exec(&tm[k].0, &tm[k].1).as_str());
        k = k + 1;
    }
    decls.append(classes.as_str());
    decls
}

} // verus!
