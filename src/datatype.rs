//! The data types that bindings pass between Rust and C/C++, and their
//! spellings in C and in C++.
use vstd::prelude::*;
use vstd::string::StringExecFns;
use crate::mangle::{Mangle, mangle_bytes_to, mangled_text};
use crate::separator::Separator;
use crate::text::push_char;

verus! {

/// Why a data type cannot be bound.
#[derive(Debug, Copy, Clone, Eq, PartialEq, Structural)]
pub enum InvalidDataType {
    SliceOfComplex,
}

impl InvalidDataType {
    /// A message for display.
    pub fn message(&self) -> (r: String)
        ensures
            r@ == "Slices of non-primitives are not supported"@,
    {
        match self {
            InvalidDataType::SliceOfComplex => String::from_str("Slices of non-primitives are not supported"),
        }
    }
}

/// Whether a value goes into C++ or comes out of it.
#[derive(Debug, Copy, Clone, Eq, PartialEq, Structural)]
pub enum Direction {
    In,
    Out,
}

/// A data type of a bound function's argument or result.
#[derive(Debug)]
pub enum DataType {
    U8,
    U16,
    U32,
    U64,
    Usize,
    I8,
    I16,
    I32,
    I64,
    Bool,
    ConstPtr,
    MutPtr,
    Str,
    Slice(Box<DataType>),
    Wrapped(TypeName),
}

/// A path such as `ns::Type`.
#[derive(Debug, Clone, Eq, PartialEq, Hash)]
pub struct TypeName(String);

/// The C spelling of a primitive type.
pub open spec fn c_name(t: DataType) -> Seq<char> {
    match t {
        DataType::U8 => "uint8_t"@,
        DataType::U16 => "uint16_t"@,
        DataType::U32 => "uint32_t"@,
        DataType::U64 => "uint64_t"@,
        DataType::Usize => "size_t"@,
        DataType::I8 => "int8_t"@,
        DataType::I16 => "int16_t"@,
        DataType::I32 => "int32_t"@,
        DataType::I64 => "int64_t"@,
        DataType::Bool => "bool"@,
        DataType::ConstPtr => "const void*"@,
        _ => "void*"@,
    }
}

/// The C types a value of `t` is passed as.
pub open spec fn c_types_of(t: DataType) -> Seq<Seq<char>> {
    match t {
        DataType::Str => seq!["char*"@, "size_t"@],
        DataType::Slice(_) => seq!["void*"@, "size_t"@],
        DataType::Wrapped(n) => seq![n@],
        _ => seq![c_name(t)],
    }
}

/// The C++ spelling of `t`.
pub open spec fn cxx_of(t: DataType, d: Direction) -> Seq<char>
    decreases t,
{
    match t {
        DataType::Str => if d == Direction::In {
            "std::string_view"@
        } else {
            "std::string"@
        },
        DataType::Slice(inner) => (if d == Direction::In {
            "std::span"@
        } else {
            "std::vector"@
        }) + "<"@ + cxx_of(*inner, d) + ">"@,
        DataType::Wrapped(n) => n@,
        _ => c_name(t),
    }
}

pub open spec fn digit_char(i: int) -> char {
    (48 + i) as char
}

/// The declarations of the first `n` C types `cs` of an argument named
/// `base`; `first` tells whether the separator is still at its start.
pub open spec fn c_decls(cs: Seq<Seq<char>>, n: int, first: bool, sep: Seq<char>, base: Seq<char>) -> Seq<char>
    decreases n,
{
    if n <= 0 {
        Seq::empty()
    } else {
        let s = if first && n == 1 { Seq::empty() } else { sep };
        let suffix = if cs.len() > 1 { "_N"@.push(digit_char(n - 1)) } else { Seq::empty() };
        c_decls(cs, n - 1, first, sep, base) + s + cs[n - 1] + " "@ + base + suffix
    }
}

/// The position of the last `::` in `s` at or before `i`, or -1.
pub open spec fn last_sep(s: Seq<char>, i: int) -> int
    decreases i + 1,
{
    if i < 0 {
        -1
    } else if i + 1 < s.len() && s[i] == ':' && s[i + 1] == ':' {
        i
    } else {
        last_sep(s, i - 1)
    }
}

proof fn lemma_last_sep_bounds(s: Seq<char>, i: int)
    ensures
        last_sep(s, i) == -1 || (0 <= last_sep(s, i) <= i && last_sep(s, i) + 1 < s.len()),
    decreases i + 1,
{
    if i >= 0 && !(i + 1 < s.len() && s[i] == ':' && s[i + 1] == ':') {
        lemma_last_sep_bounds(s, i - 1);
    }
}

pub open spec fn sep_pos(s: Seq<char>) -> int {
    last_sep(s, s.len() - 2)
}

fn lit(s: &str) -> (r: String)
    ensures
        r@ == s@,
{
    String::from_str(s)
}

impl DataType {
    /// Checks that the type can be bound: a slice must hold primitives.
    pub fn check(&self) -> (r: Result<(), InvalidDataType>)
        ensures
            r is Err <==> (self matches DataType::Slice(inner) && !inner.spec_is_primitive()),
    {
        match self {
            DataType::Slice(inner) => if !inner.is_primitive() {
                Err(InvalidDataType::SliceOfComplex)
            } else {
                Ok(())
            },
            _ => Ok(()),
        }
    }

    pub open spec fn spec_is_primitive(&self) -> bool {
        !(self is Slice || self is Str)
    }

    /// Whether a value of the type is passed as one C value.
    pub fn is_primitive(&self) -> (r: bool)
        ensures
            r == self.spec_is_primitive(),
    {
        match self {
            DataType::Slice(_) | DataType::Str => false,
            _ => true,
        }
    }

    fn c_name_exec(&self) -> (r: String)
        ensures
            r@ == c_name(*self),
    {
        match self {
            DataType::U8 => lit("uint8_t"),
            DataType::U16 => lit("uint16_t"),
            DataType::U32 => lit("uint32_t"),
            DataType::U64 => lit("uint64_t"),
            DataType::Usize => lit("size_t"),
            DataType::I8 => lit("int8_t"),
            DataType::I16 => lit("int16_t"),
            DataType::I32 => lit("int32_t"),
            DataType::I64 => lit("int64_t"),
            DataType::Bool => lit("bool"),
            DataType::ConstPtr => lit("const void*"),
            _ => lit("void*"),
        }
    }

    /// The C types a value of this type is passed as, in order: one, or a
    /// pointer and a length.
    pub fn c_types(&self) -> (r: Vec<String>)
        ensures
            r@.map_values(|s: String| s@) == c_types_of(*self),
            1 <= r.len() <= 2,
    {
        let mut v: Vec<String> = Vec::new();
        match self {
            DataType::Str => {
                v.push(lit("char*"));
                v.push(lit("size_t"));
            },
            DataType::Slice(_) => {
                v.push(lit("void*"));
                v.push(lit("size_t"));
            },
            DataType::Wrapped(n) => {
                v.push(n.0.clone());
            },
            _ => {
                v.push(self.c_name_exec());
            },
        }
        assert(v@.map_values(|s: String| s@) =~= c_types_of(*self));
        v
    }

    /// The C++ spelling of the type, for values going in `direction`.
    pub fn cxx_type(&self, direction: Direction) -> (r: String)
        ensures
            r@ == cxx_of(*self, direction),
        decreases self,
    {
        match self {
            DataType::Str => match direction {
                Direction::In => lit("std::string_view"),
                Direction::Out => lit("std::string"),
            },
            DataType::Slice(inner) => {
                let mut r = match direction {
                    Direction::In => lit("std::span"),
                    Direction::Out => lit("std::vector"),
                };
                r.append("<");
                let t = inner.cxx_type(direction);
                r.append(t.as_str());
                r.append(">");
                r
            },
            DataType::Wrapped(n) => n.0.clone(),
            _ => self.c_name_exec(),
        }
    }

    /// The C parameter declarations of an argument `base_name` of this
    /// type, each preceded by what `sep` hands out; a type passed as two
    /// values numbers them `_N0`, `_N1`.
    pub fn write_c_types(&self, out: &mut String, sep: &mut Separator, base_name: &str)
        ensures
            final(out)@ == old(out)@ + c_decls(
                c_types_of(*self),
                c_types_of(*self).len() as int,
                old(sep).at_start(),
                old(sep).text(),
                base_name@,
            ),
            final(sep).text() == old(sep).text(),
            !final(sep).at_start(),
    {
        let cs = self.c_types();
        let ghost views = cs@.map_values(|s: String| s@);
        let ghost first = sep.at_start();
        let ghost start = out@;
        let multiple = cs.len() > 1;
        let mut i: usize = 0;
        assert(start + Seq::<char>::empty() =~= start);
        while i < cs.len()
            invariant
                i <= cs.len() <= 2,
                views == c_types_of(*self),
                views == cs@.map_values(|s: String| s@),
                multiple == (cs.len() > 1),
                sep.text() == old(sep).text(),
                first == old(sep).at_start(),
                sep.at_start() == (first && i == 0),
                out@ == start + c_decls(views, i as int, first, sep.text(), base_name@),
            decreases cs.len() - i,
        {
            let ghost before = out@;
            let s = sep.next();
            out.append(s);
            out.append(cs[i].as_str());
            out.append(" ");
            out.append(base_name);
            if multiple {
                out.append("_N");
                push_char(out, if i == 0 { '0' } else { '1' });
            }
            let ghost suffix = if views.len() > 1 { "_N"@.push(digit_char(i as int)) } else { Seq::<char>::empty() };
            assert(out@ =~= before + s@ + views[i as int] + " "@ + base_name@ + suffix);
            assert(out@ =~= start + c_decls(views, i + 1, first, sep.text(), base_name@));
            i = i + 1;
        }
    }

    /// The C parameter declarations of `write_c_types`, as a new string.
    pub fn view_c_types(&self, sep: &mut Separator, base_name: &str) -> (r: String)
        ensures
            r@ == c_decls(
                c_types_of(*self),
                c_types_of(*self).len() as int,
                old(sep).at_start(),
                old(sep).text(),
                base_name@,
            ),
            final(sep).text() == old(sep).text(),
            !final(sep).at_start(),
    {
        let mut buf = String::new();
        self.write_c_types(&mut buf, sep, base_name);
        buf
    }
}

impl TypeName {
    pub closed spec fn view(&self) -> Seq<char> {
        self.0@
    }

    pub fn new(name: String) -> (r: Self)
        ensures
            r@ == name@,
    {
        TypeName(name)
    }

    /// The full name.
    pub fn as_str(&self) -> (r: &str)
        ensures
            r@ == self@,
    {
        self.0.as_str()
    }

    /// The position of the last `::`, if there is one.
    fn sep_index(&self) -> (r: Option<usize>)
        ensures
            r matches Some(p) ==> p as int == sep_pos(self@),
            r is None ==> sep_pos(self@) < 0,
    {
        let s = crate::text::chars_of(self.0.as_str());
        if s.len() < 2 {
            assert(sep_pos(self@) < 0);
            return None;
        }
        let mut i: usize = s.len() - 1;
        while i > 0
            invariant
                0 <= i <= s.len() - 1,
                s@ == self@,
                last_sep(s@, s.len() - 2) == last_sep(s@, i - 1),
            decreases i,
        {
            if s[i - 1] == ':' && s[i] == ':' {
                return Some(i - 1);
            }
            i = i - 1;
        }
        None
    }

    /// Whether the name has a namespace: it holds `::`.
    pub fn has_namespace(&self) -> (r: bool)
        ensures
            r == (sep_pos(self@) >= 0),
    {
        self.sep_index().is_some()
    }

    /// The part after the last `::`.
    pub fn base(&self) -> (r: String)
        requires
            sep_pos(self@) >= 0,
        ensures
            r@ == self@.subrange(sep_pos(self@) + 2, self@.len() as int),
    {
        let p = self.sep_index().unwrap();
        let s = crate::text::chars_of(self.0.as_str());
        proof {
            lemma_last_sep_bounds(self@, self@.len() - 2);
        }
        assert(s@ == self@);
        assert(p + 1 < s.len());
        substring(&s, p + 2, s.len())
    }

    /// The part before the last `::`.
    pub fn namespace(&self) -> (r: String)
        requires
            sep_pos(self@) >= 0,
        ensures
            r@ == self@.subrange(0, sep_pos(self@)),
    {
        let p = self.sep_index().unwrap();
        let s = crate::text::chars_of(self.0.as_str());
        proof {
            lemma_last_sep_bounds(self@, self@.len() - 2);
        }
        substring(&s, 0, p)
    }
}

/// The characters `s[a..b]` as a `String`.
pub(crate) fn substring(s: &Vec<char>, a: usize, b: usize) -> (r: String)
    requires
        a <= b <= s.len(),
    ensures
        r@ == s@.subrange(a as int, b as int),
{
    let mut out = String::new();
    let mut j: usize = a;
    while j < b
        invariant
            a <= j <= b <= s.len(),
            out@ == s@.subrange(a as int, j as int),
        decreases b - j,
    {
        push_char(&mut out, s[j]);
        assert(s@.subrange(a as int, j + 1) =~= s@.subrange(a as int, j as int).push(s@[j as int]));
        j = j + 1;
    }
    out
}

impl Mangle for TypeName {
    open spec fn mangled(&self) -> Seq<char> {
        mangled_text(self@)
    }

    fn mangle_to(&self, out: &mut String) {
        mangle_bytes_to(self.0.as_str().as_bytes(), true, out);
    }
}

} // verus!
