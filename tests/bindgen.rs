use regex_parser::char::{Char, NaiveChar};
use regex_parser::codegen::{self, ArgType, Argument, Function, FunctionMap, TypeMap};
use regex_parser::datatype::{DataType, Direction, InvalidDataType, TypeName};
use regex_parser::function::{Method, SelfKind};
use regex_parser::mangle::Mangle;
use regex_parser::range::Range;
use regex_parser::separator::Separator;

#[test]
fn separator_is_empty_first() {
    let mut s = Separator::new(", ");
    assert_eq!(s.next(), "");
    assert_eq!(s.next(), ", ");
    assert_eq!(s.next(), ", ");
}

#[test]
fn mangling_escapes_non_alphanumerics() {
    assert_eq!("a::B".mangle(), "a_3a_3aB");
    assert_eq!("x1".mangle(), "x1");
    assert_eq!("é".mangle(), "_c3_a9");
    let mut out = String::from("p");
    codegen::mangle_str("a::B", &mut out);
    assert_eq!(out, "pa_a3_a3B");
    assert_eq!(codegen::mangle("ns::T", "get"), "_rustcxx_binding_ns_a3_a3T_m_get");
}

#[test]
fn method_and_type_names_mangle() {
    let m = Method { bound_type: TypeName::new(String::from("ns::T")), method_name: String::from("get_x") };
    assert_eq!(m.mangle(), "_rustcxx_binding_ns_3a_3aT_m_get_5fx");
    assert_eq!(TypeName::new(String::from("a::b")).mangle(), "a_3a_3ab");
}

#[test]
fn type_name_parts() {
    let t = TypeName::new(String::from("a::b::C"));
    assert!(t.has_namespace());
    assert_eq!(t.base(), "C");
    assert_eq!(t.namespace(), "a::b");
    assert!(!TypeName::new(String::from("plain")).has_namespace());
}

#[test]
fn data_type_spellings() {
    let slice = DataType::Slice(Box::new(DataType::U8));
    assert_eq!(slice.cxx_type(Direction::In), "std::span<uint8_t>");
    assert_eq!(slice.cxx_type(Direction::Out), "std::vector<uint8_t>");
    assert_eq!(DataType::Str.cxx_type(Direction::In), "std::string_view");
    assert_eq!(DataType::Str.c_types(), vec![String::from("char*"), String::from("size_t")]);
    assert_eq!(DataType::I64.c_types(), vec![String::from("int64_t")]);
    assert_eq!(DataType::Wrapped(TypeName::new(String::from("ns::T"))).cxx_type(Direction::Out), "ns::T");
    assert!(DataType::U16.is_primitive());
    assert!(!DataType::Str.is_primitive());
}

#[test]
fn slices_of_complex_types_are_refused() {
    assert_eq!(DataType::Slice(Box::new(DataType::Str)).check(), Err(InvalidDataType::SliceOfComplex));
    assert_eq!(DataType::Slice(Box::new(DataType::U8)).check(), Ok(()));
    assert_eq!(InvalidDataType::SliceOfComplex.message(), "Slices of non-primitives are not supported");
}

#[test]
fn c_parameter_lists() {
    let mut sep = Separator::new(", ");
    assert_eq!(DataType::Str.view_c_types(&mut sep, "s"), "char* s_N0, size_t s_N1");
    assert_eq!(DataType::U8.view_c_types(&mut sep, "x"), ", uint8_t x");
    let mut out = String::new();
    let mut sep = Separator::new(", ");
    DataType::Bool.write_c_types(&mut out, &mut sep, "flag");
    assert_eq!(out, "bool flag");
}

#[test]
fn self_pointer_types() {
    assert!(matches!(SelfKind::Ref.as_ptr(), DataType::ConstPtr));
    assert!(matches!(SelfKind::Mut.as_ptr(), DataType::MutPtr));
    assert_eq!(codegen::SelfKind::Mut.as_ptr(), ArgType::MutPtr);
    assert_eq!(ArgType::Usize.c_name(), "size_t");
}

#[test]
fn generated_source() {
    let get = Function {
        self_kind: codegen::SelfKind::Ref,
        args: vec![Argument { name: String::from("x"), arg_type: ArgType::U32 }],
        return_type: ArgType::Bool,
    };
    let set = Function {
        self_kind: codegen::SelfKind::Mut,
        args: vec![
            Argument { name: String::from("a"), arg_type: ArgType::I8 },
            Argument { name: String::from("b"), arg_type: ArgType::ConstPtr },
        ],
        return_type: ArgType::U64,
    };
    let config = TypeMap(vec![(
        String::from("ns::T"),
        FunctionMap(vec![(String::from("get"), get), (String::from("set"), set)]),
    )]);
    let expected = [
        "extern \"C\" bool _rustcxx_binding_ns_a3_a3T_m_get(const void* self, uint32_t x);\n",
        "extern \"C\" uint64_t _rustcxx_binding_ns_a3_a3T_m_set(void* self, int8_t a, const void* b);\n",
        "\n",
        "namespace ns {\n",
        "class TRef {\n",
        "public:\n",
        "bool get(uint32_t x) const;\n",
        "uint64_t set(int8_t a, const void* b);\n",
        "private:\n",
        "    TRef() = delete;\n",
        "    void* m_ptr;\n",
        "}\n",
        "} // namespace ns\n",
        "\n",
    ]
    .concat();
    assert_eq!(codegen::generate_source(&config), expected);
}

#[test]
fn ranges_validate_their_bounds() {
    let r = Range::<char>::new('a', 'z').unwrap();
    assert_eq!((*r.min(), *r.max()), ('a', 'z'));
    let e = Range::<char>::new('z', 'a').unwrap_err();
    assert_eq!((*e.provided_min(), *e.provided_max()), ('z', 'a'));
    assert!(Range::<usize>::new(3, 3).is_ok());
    assert!(Range::<usize>::new(4, 3).is_err());
}

#[test]
fn naive_chars_round_trip() {
    let c = NaiveChar::from_char('q');
    assert_eq!(c, NaiveChar('q'));
    assert_eq!(c.into_char(), 'q');
    assert_eq!(<char as Char>::from_char('z').into_char(), 'z');
}
