use toyc::ast::{IntType, Type};
use toyc::diagnostics::locate_offset;
use toyc::environment_builder::Environment;
use toyc::environment_builder::EnvironmentBuilder;
use toyc::ir;
use toyc::parser::parse_root_module;
use toyc::typecheck::{typecheck_root_module, TypeError};

fn parse(src: &str) -> toyc::ast::ModuleStatement {
    parse_root_module(&src.as_bytes().to_vec()).unwrap()
}

fn check(src: &str) -> Result<ir::Module, TypeError> {
    let module = parse(src);
    typecheck_root_module(&src.as_bytes().to_vec(), &module)
}

#[test]
fn test_env_build() {
    let code = "
        let x : i32 = 5;

        extern fn putc();

        extern fn extern_sum(lhs: i32, rhs: i32) : i32;

        fn nop() => {};

        fn sum(lhs: i32, rhs: i32) => lhs + rhs;
        ";

    let module = parse(code);

    let env_builder = EnvironmentBuilder::new(code.as_bytes().to_vec());

    let env = env_builder.build_environment(&module).unwrap();

    assert_eq!(env.get(&b"x".to_vec()), Some(&Type::Int(IntType::I32)));

    assert_eq!(
        env.get(&b"nop".to_vec()),
        Some(&Type::Function { parameters: vec![], return_type: Box::new(Type::Void) })
    );

    assert_eq!(
        env.get(&b"putc".to_vec()),
        Some(&Type::Function { parameters: vec![], return_type: Box::new(Type::Void) })
    );

    assert_eq!(
        env.get(&b"extern_sum".to_vec()),
        Some(&Type::Function {
            parameters: vec![Type::Int(IntType::I32), Type::Int(IntType::I32)],
            return_type: Box::new(Type::Int(IntType::I32)),
        })
    );
}

// A declared signature types the call site: sum applied to two i32 values
// resolves to the declared i32 return type.
#[test]
fn call_site_resolves_to_declared_return_type() {
    let src = "fn sum(lhs: i32, rhs: i32): i32 => lhs + rhs; \
               fn caller(x: i32, y: i32): i32 => sum(x, y);";
    let module = check(src).unwrap();
    assert_eq!(module.functions.len(), 2);
    assert_eq!(module.functions[1].body.type_(), Type::Int(IntType::I32));
    assert_eq!(module.functions[1].return_type, Type::Int(IntType::I32));
}

// Functions may refer to each other before their own definitions are
// checked: signatures are bound in a forward pass over the whole module.
#[test]
fn mutual_recursion_typechecks() {
    assert!(check("fn a() => b(); fn b() => a();").is_ok());
}

#[test]
fn branch_return_type_mismatch() {
    let r = check("fn f(): i32 => { if true { return 5_i32; } else { return true; } };");
    match r {
        Err(TypeError::ReturnTypeMismatch { expected, found, .. }) => {
            assert_eq!(expected, Type::Int(IntType::I32));
            assert_eq!(found, Type::Boolean);
        }
        other => panic!("expected a return type mismatch, found {:?}", other),
    }
}

#[test]
fn return_outside_function() {
    let r = check("let x: i32 = 5; return x;");
    match r {
        Err(TypeError::ReturnOutsideFunction { .. }) => {}
        other => panic!("expected a return-outside-function error, found {:?}", other),
    }
}

#[test]
fn function_definition_inside_block() {
    let r = check("fn foo(): i32 => { fn goo(): i32 => 5_i32; 5_i32 };");
    match r {
        Err(TypeError::FunctionDefinitionInsideBlock { .. }) => {}
        other => panic!("expected a nested-function error, found {:?}", other),
    }
}

#[test]
fn unbound_identifier() {
    match check("fn f() => y;") {
        Err(TypeError::UnboundIdentifier { .. }) => {}
        other => panic!("expected an unbound-identifier error, found {:?}", other),
    }
}

#[test]
fn invalid_type_suffix() {
    match check("fn f() => 5_q32;") {
        Err(TypeError::InvalidTypeSuffix { .. }) => {}
        other => panic!("expected an invalid-suffix error, found {:?}", other),
    }
}

#[test]
fn non_boolean_condition() {
    match check("fn f(): i32 => if 1_i32 { 1_i32 } else { 2_i32 };") {
        Err(TypeError::NonBooleanCondition { found, .. }) => {
            assert_eq!(found, Type::Int(IntType::I32));
        }
        other => panic!("expected a non-boolean-condition error, found {:?}", other),
    }
}

#[test]
fn branch_type_mismatch() {
    match check("fn f(): i32 => if true { 1_i32 } else { true };") {
        Err(TypeError::BranchTypeMismatch { true_path, false_path, .. }) => {
            assert_eq!(true_path, Type::Int(IntType::I32));
            assert_eq!(false_path, Type::Boolean);
        }
        other => panic!("expected a branch-type mismatch, found {:?}", other),
    }
}

#[test]
fn operand_type_mismatch() {
    match check("fn f(): i32 => 1_i32 + true;") {
        Err(TypeError::OperandTypeMismatch { left, right, .. }) => {
            assert_eq!(left, Type::Int(IntType::I32));
            assert_eq!(right, Type::Boolean);
        }
        other => panic!("expected an operand-type mismatch, found {:?}", other),
    }
}

#[test]
fn not_callable() {
    match check("fn f() => 5_i32();") {
        Err(TypeError::NotCallable { found, .. }) => {
            assert_eq!(found, Type::Int(IntType::I32));
        }
        other => panic!("expected a not-callable error, found {:?}", other),
    }
}

#[test]
fn argument_type_mismatch() {
    match check("fn g(x: i32): i32 => x; fn f(): i32 => g(true);") {
        Err(TypeError::ArgumentTypeMismatch { expected, found, .. }) => {
            assert_eq!(expected, Type::Int(IntType::I32));
            assert_eq!(found, Type::Boolean);
        }
        other => panic!("expected an argument-type mismatch, found {:?}", other),
    }
}

#[test]
fn not_indexable() {
    match check("fn f() => 5_i32[0];") {
        Err(TypeError::NotIndexable { found, .. }) => {
            assert_eq!(found, Type::Int(IntType::I32));
        }
        other => panic!("expected a not-indexable error, found {:?}", other),
    }
}

#[test]
fn heterogeneous_array_elements() {
    match check("fn f() => [1_i32, true];") {
        Err(TypeError::HeterogeneousArrayElements { .. }) => {}
        other => panic!("expected a heterogeneous-array error, found {:?}", other),
    }
}

#[test]
fn initializer_type_mismatch() {
    match check("fn f(): bool => { let x: bool = 5_i32; x };") {
        Err(TypeError::InitializerTypeMismatch { expected, found, .. }) => {
            assert_eq!(expected, Type::Boolean);
            assert_eq!(found, Type::Int(IntType::I32));
        }
        other => panic!("expected an initializer mismatch, found {:?}", other),
    }
}

// Indexing an array literal yields its element type.
#[test]
fn array_access_types_as_element() {
    let module = check("fn f(): i32 => [1_i32, 2_i32][0];").unwrap();
    assert_eq!(module.functions[0].return_type, Type::Int(IntType::I32));
    assert_eq!(module.functions[0].body.type_(), Type::Int(IntType::I32));
}

// An unsuffixed literal is reconciled with the context's declared type.
#[test]
fn unsuffixed_literal_reconciles_with_declared_type() {
    assert!(check("fn f(): i32 => { let x: i32 = 5; x };").is_ok());
    assert!(check("fn f(x: u8): u8 => x;").is_ok());
}

// A block-scoped variable stops being visible outside its block.
#[test]
fn block_scope_does_not_leak() {
    let r = check("fn f(): i32 => { let a: i32 = { let b: i32 = 1_i32; b }; b };");
    match r {
        Err(TypeError::UnboundIdentifier { .. }) => {}
        other => panic!("expected the inner binding to be out of scope, found {:?}", other),
    }
}

// Integer widths are part of type equality: i32 and i64 do not agree.
#[test]
fn integer_widths_are_distinguished() {
    match check("fn f(): i32 => 5_i64;") {
        Err(TypeError::ReturnTypeMismatch { expected, found, .. }) => {
            assert_eq!(expected, Type::Int(IntType::I32));
            assert_eq!(found, Type::Int(IntType::I64));
        }
        other => panic!("expected a width mismatch, found {:?}", other),
    }
}

// 1-based line and column of an offset, and the bounds of its line.
#[test]
fn locating_an_offset() {
    let src = b"ab\ncde".to_vec();
    let loc = locate_offset(&src, 4);
    assert_eq!(loc.line, 2);
    assert_eq!(loc.column, 2);
    assert_eq!(loc.line_start, 3);
    assert_eq!(loc.line_end, 6);

    let first = locate_offset(&src, 0);
    assert_eq!(first.line, 1);
    assert_eq!(first.column, 1);
    assert_eq!(first.line_start, 0);
    assert_eq!(first.line_end, 2);
}

// Any function declaration inside a block is rejected, external ones too.
#[test]
fn external_declaration_inside_block() {
    let r = check("fn foo(): i32 => { extern fn putc(); 5_i32 };");
    match r {
        Err(TypeError::FunctionDefinitionInsideBlock { .. }) => {}
        other => panic!("expected a nested-declaration error, found {:?}", other),
    }
}

// The empty array types as an array of the absent element type.
#[test]
fn empty_array_literal_types() {
    match check("fn f(): i32 => [];") {
        Err(TypeError::ReturnTypeMismatch { found, .. }) => {
            assert_eq!(found, Type::Array { type_id: Box::new(Type::Absent), size: 0 });
        }
        other => panic!("expected a mismatch against the empty array type, found {:?}", other),
    }
}

// A wrong number of arguments is an argument mismatch.
#[test]
fn call_arity_mismatch() {
    match check("fn g(x: i32): i32 => x; fn f(): i32 => g();") {
        Err(TypeError::ArgumentTypeMismatch { .. }) => {}
        other => panic!("expected an argument mismatch, found {:?}", other),
    }
}

#[test]
fn it_works() {
    assert_eq!(2 + 2, 4);
}

// Lookup walks outward through parent scopes; an inner binding shadows an
// outer one for the same name.
#[test]
fn scope_chain_lookup() {
    let mut parent = Environment::new();
    parent.insert(b"x".to_vec(), Type::Boolean);
    parent.insert(b"y".to_vec(), Type::Void);

    let mut child = Environment::put(Box::new(parent));
    child.insert(b"x".to_vec(), Type::Int(IntType::I32));

    assert_eq!(child.get(&b"x".to_vec()), Some(&Type::Int(IntType::I32)));
    assert_eq!(child.get(&b"y".to_vec()), Some(&Type::Void));
    assert_eq!(child.get(&b"z".to_vec()), None);

    let mut outer = Environment::new();
    outer.bind(b"w".to_vec(), Type::Boolean);
    let scope = Environment::make_scope(Box::new(outer));
    assert_eq!(scope.get(&b"w".to_vec()), Some(&Type::Boolean));
}
