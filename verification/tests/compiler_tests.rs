use membase::compiler::{
    compile_function_signature, compile_offsets, parse_hex_offset, parse_signature, validate_type,
    CType, FunctionSignature, Prim, SignatureError,
};

fn tok(s: &str) -> Vec<u8> {
    s.as_bytes().to_vec()
}

#[test]
fn offset_example_compiles_to_integer() {
    assert_eq!(parse_hex_offset(b"0x1A2B3C"), Some(0x1A2B3C));
}

#[test]
fn offset_without_prefix() {
    assert_eq!(parse_hex_offset(b"1A2B3C"), Some(0x1A2B3C));
    assert_eq!(parse_hex_offset(b"deadBEEF"), Some(0xDEAD_BEEF));
    assert_eq!(parse_hex_offset(b"0"), Some(0));
}

#[test]
fn offset_extremes() {
    assert_eq!(parse_hex_offset(b"0xFFFFFFFFFFFFFFFF"), Some(u64::MAX));
    assert_eq!(parse_hex_offset(b"0x10000000000000000"), None);
    assert_eq!(parse_hex_offset(b"0x000000000000000000001"), Some(1));
}

#[test]
fn malformed_offsets_are_rejected() {
    assert_eq!(parse_hex_offset(b""), None);
    assert_eq!(parse_hex_offset(b"0x"), None);
    assert_eq!(parse_hex_offset(b"xyz"), None);
    assert_eq!(parse_hex_offset(b"0x12G4"), None);
    assert_eq!(parse_hex_offset(b"0x0x12"), None);
    assert_eq!(parse_hex_offset(b"+1A"), None);
    assert_eq!(parse_hex_offset(b" 1A"), None);
}

#[test]
fn offset_table_compiles_in_order() {
    let values = vec![tok("0x10"), tok("20"), tok("0xABC")];
    assert_eq!(compile_offsets(&values), Ok(vec![0x10, 0x20, 0xABC]));
}

#[test]
fn offset_table_aborts_naming_first_bad_entry() {
    let values = vec![tok("0x10"), tok("bad!"), tok("0x20"), tok("worse")];
    assert_eq!(compile_offsets(&values), Err(1));
}

#[test]
fn signature_example_compiles_elementwise() {
    let pat = parse_signature(b"48 8B ?? 05 ? ? ? ??");
    assert_eq!(
        pat,
        vec![
            Some(0x48),
            Some(0x8B),
            None,
            Some(0x05),
            None,
            None,
            None,
            None
        ]
    );
}

#[test]
fn signature_lenient_fallback_makes_wildcards() {
    assert_eq!(parse_signature(b"GG 48 zz"), vec![None, Some(0x48), None]);
    assert_eq!(parse_signature(b"123"), vec![None]);
    assert_eq!(parse_signature(b"0048 ff"), vec![Some(0x48), Some(0xFF)]);
}

#[test]
fn signature_tokenizing_drops_empty_runs() {
    assert_eq!(parse_signature(b""), Vec::<Option<u8>>::new());
    assert_eq!(parse_signature(b"   "), Vec::<Option<u8>>::new());
    assert_eq!(parse_signature(b"  48   ?  "), vec![Some(0x48), None]);
}

#[test]
fn whitelisted_tokens_map_to_primitives() {
    let cases: Vec<(&str, Prim)> = vec![
        ("void", Prim::Void),
        ("char", Prim::Char),
        ("schar", Prim::SChar),
        ("uchar", Prim::UChar),
        ("short", Prim::Short),
        ("ushort", Prim::UShort),
        ("int", Prim::Int),
        ("uint", Prim::UInt),
        ("long", Prim::Long),
        ("ulong", Prim::ULong),
        ("longlong", Prim::LongLong),
        ("ulonglong", Prim::ULongLong),
        ("float", Prim::Float),
        ("double", Prim::Double),
        ("i8", Prim::I8),
        ("u8", Prim::U8),
        ("i16", Prim::I16),
        ("u16", Prim::U16),
        ("i32", Prim::I32),
        ("u32", Prim::U32),
        ("i64", Prim::I64),
        ("u64", Prim::U64),
    ];
    for (name, prim) in cases {
        assert_eq!(
            validate_type(name.as_bytes()),
            Some(CType {
                pointer: false,
                prim
            }),
            "token {name}"
        );
    }
}

#[test]
fn validation_is_case_insensitive() {
    let c = |pointer, prim| Some(CType { pointer, prim });
    assert_eq!(validate_type(b"VOID"), c(false, Prim::Void));
    assert_eq!(validate_type(b"Int"), c(false, Prim::Int));
    assert_eq!(validate_type(b"ULongLong"), c(false, Prim::ULongLong));
    assert_eq!(validate_type(b"U64"), c(false, Prim::U64));
}

#[test]
fn leading_star_yields_pointer_form() {
    let c = |pointer, prim| Some(CType { pointer, prim });
    assert_eq!(validate_type(b"*void"), c(true, Prim::Void));
    assert_eq!(validate_type(b"*Char"), c(true, Prim::Char));
    assert_eq!(validate_type(b"*u32"), c(true, Prim::U32));
}

#[test]
fn unknown_tokens_yield_no_mapping() {
    assert_eq!(validate_type(b""), None);
    assert_eq!(validate_type(b"intt"), None);
    assert_eq!(validate_type(b"i128"), None);
    assert_eq!(validate_type(b"*"), None);
    assert_eq!(validate_type(b"**int"), None);
    assert_eq!(validate_type(b"in t"), None);
}

#[test]
fn function_signature_compiles_argument_types_in_order() {
    let sig = FunctionSignature {
        arguments: vec![(tok("this"), tok("*void")), (tok("count"), tok("Int"))],
        of_return: tok("u64"),
    };
    let compiled = compile_function_signature(&sig).expect("whitelisted tokens");
    assert_eq!(
        compiled.arguments,
        vec![
            CType {
                pointer: true,
                prim: Prim::Void
            },
            CType {
                pointer: false,
                prim: Prim::Int
            }
        ]
    );
    assert_eq!(
        compiled.of_return,
        CType {
            pointer: false,
            prim: Prim::U64
        }
    );
}

#[test]
fn function_signature_names_offending_argument() {
    let sig = FunctionSignature {
        arguments: vec![(tok("a"), tok("int")), (tok("b"), tok("quux"))],
        of_return: tok("void"),
    };
    assert_eq!(
        compile_function_signature(&sig),
        Err(SignatureError::Argument(1))
    );
}

#[test]
fn function_signature_names_offending_return() {
    let sig = FunctionSignature {
        arguments: vec![(tok("a"), tok("int"))],
        of_return: tok("nope"),
    };
    assert_eq!(
        compile_function_signature(&sig),
        Err(SignatureError::Return)
    );
}
