use mylang_compiler::ast::{
    DeclKeyword, DeclKind, Declaration, Expression, GlobalNamespace, IdKind, Primitive, ScopeKind,
    TypeKind,
};
use mylang_compiler::parser::Parser;
use mylang_compiler::tokenizer::Tokenizer;

fn parse_ok(src: &str) -> GlobalNamespace {
    let mut parser = Parser::new();
    parser
        .parse(Tokenizer::new(src.as_bytes().to_vec()))
        .unwrap_or_else(|e| panic!("parse failed: {}", e.message));
    parser
        .finalize()
        .unwrap_or_else(|e| panic!("resolve failed: {}", e.message))
}

fn parse_err(src: &str) -> String {
    let mut parser = Parser::new();
    match parser.parse(Tokenizer::new(src.as_bytes().to_vec())) {
        Ok(()) => panic!("expected a parse error"),
        Err(e) => e.message,
    }
}

#[test]
fn parses_a_public_constant() {
    let g = parse_ok("pub def x: I32 = 42;");
    assert_eq!(g.declarations.len(), 1);
    assert_eq!(g.subnamespaces.len(), 0);
    let Declaration::ValueDecl(v) = &g.declarations[0];
    assert!(v.public);
    assert_eq!(v.decl_keyword, DeclKeyword::Def);
    assert_eq!(v.identifier, "x");
    assert!(matches!(v.type_kind, TypeKind::Primitive(Primitive::I32)));
    match &v.decl_kind {
        DeclKind::AssignDecl(e) => match &**e {
            Expression::Integer(t) => assert_eq!(t, "42"),
            other => panic!("unexpected expression {other:?}"),
        },
        other => panic!("unexpected kind {other:?}"),
    }
}

#[test]
fn type_annotation_may_be_absent() {
    let g = parse_ok("var y = true;");
    let Declaration::ValueDecl(v) = &g.declarations[0];
    assert!(!v.public);
    assert_eq!(v.decl_keyword, DeclKeyword::Var);
    assert!(matches!(v.type_kind, TypeKind::Inferred));
    match &v.decl_kind {
        DeclKind::AssignDecl(e) => assert!(matches!(&**e, Expression::Bool(true))),
        other => panic!("unexpected kind {other:?}"),
    }
}

#[test]
fn parses_a_function() {
    let g = parse_ok("pub def id(x: I32) -> I32 do x;");
    let Declaration::ValueDecl(v) = &g.declarations[0];
    assert_eq!(v.identifier, "id");
    let f = match &v.type_kind {
        TypeKind::FuncType(f) => f,
        other => panic!("unexpected type {other:?}"),
    };
    assert!(matches!(*f.return_type, TypeKind::Primitive(Primitive::I32)));
    assert_eq!(f.arguments.len(), 1);
    let Declaration::ValueDecl(arg) = &f.arguments[0].decl;
    assert_eq!(arg.identifier, "x");
    assert_eq!(arg.decl_keyword, DeclKeyword::Let);
    assert!(matches!(arg.decl_kind, DeclKind::EmptyDecl));
    assert!(matches!(arg.type_kind, TypeKind::Primitive(Primitive::I32)));
    // The body identifier resolved to parameter 0 of function declaration 0.
    match &v.decl_kind {
        DeclKind::FuncDecl(e) => match &**e {
            Expression::Identifier(idn) => {
                assert_eq!(idn.name, "x");
                match &idn.id_kind {
                    IdKind::Resolved { declaration, scope } => {
                        assert_eq!(*declaration, 0);
                        match scope {
                            ScopeKind::Function(path, fi) => {
                                assert!(path.is_empty());
                                assert_eq!(*fi, 0);
                            }
                            other => panic!("unexpected scope {other:?}"),
                        }
                    }
                    other => panic!("unexpected id kind {other:?}"),
                }
            }
            other => panic!("unexpected expression {other:?}"),
        },
        other => panic!("unexpected kind {other:?}"),
    }
}

#[test]
fn forward_reference_resolves_to_root() {
    let g = parse_ok("def b: I32 = a; def a: I32 = 7;");
    let Declaration::ValueDecl(v) = &g.declarations[0];
    match &v.decl_kind {
        DeclKind::AssignDecl(e) => match &**e {
            Expression::Identifier(idn) => {
                assert_eq!(idn.name, "a");
                match &idn.id_kind {
                    IdKind::Resolved { declaration, scope } => {
                        assert_eq!(*declaration, 1);
                        assert!(matches!(scope, ScopeKind::GlobalNamespace));
                    }
                    other => panic!("unexpected id kind {other:?}"),
                }
            }
            other => panic!("unexpected expression {other:?}"),
        },
        other => panic!("unexpected kind {other:?}"),
    }
}

#[test]
fn unresolved_identifier_aborts_resolution() {
    let mut parser = Parser::new();
    parser
        .parse(Tokenizer::new(b"def z: I32 = undeclared;".to_vec()))
        .unwrap();
    match parser.finalize() {
        Ok(_) => panic!("expected a resolution error"),
        Err(e) => assert_eq!(e.message, "could not resolve identifier `undeclared`"),
    }
}

#[test]
fn resolver_runs_are_idempotent() {
    let mut parser = Parser::new();
    parser
        .parse(Tokenizer::new(
            b"def a: I32 = 7; def b: I32 = a;".to_vec(),
        ))
        .unwrap();
    parser.resolve_identifiers().unwrap();
    let once = format!("{parser:?}");
    parser.resolve_identifiers().unwrap();
    assert_eq!(once, format!("{parser:?}"));
}

#[test]
fn duplicate_identifiers_are_rejected() {
    assert_eq!(
        parse_err("def a: I32 = 1; def a: I32 = 2;"),
        "Duplicate identifier `a`"
    );
}

#[test]
fn duplicate_parameters_are_rejected() {
    assert_eq!(
        parse_err("def f(x: I32, x: I32) -> I32 do x;"),
        "duplicate parameter identifier"
    );
}

#[test]
fn unexpected_token_messages() {
    assert_eq!(
        parse_err("pub pub"),
        "Unexpected token `pub` at line: 1, char: 5. Expected `var`, `let`, `def`"
    );
    assert_eq!(
        parse_err("def 5"),
        "Unexpected token `5` at line: 1, char: 5. Expected `identifier`"
    );
    assert_eq!(
        parse_err("def x 5"),
        "Unexpected token `5` at line: 1, char: 7. Expected `=`, `(`"
    );
}

#[test]
fn not_implemented_messages() {
    assert_eq!(
        parse_err("return"),
        "Not implemented: `return` at line: 1, char: 1"
    );
    assert_eq!(
        parse_err("def x = a + b;"),
        "Not implemented: `+` at line: 1, char: 11"
    );
}

#[test]
fn parameters_need_primitive_types() {
    assert!(parse_err("def f(x) -> I32 do x;").contains("Expected `:`"));
    assert!(parse_err("def f(x:) -> I32 do x;").contains("Expected `type`"));
    assert_eq!(
        parse_err("def f(x: Foo) -> I32 do x;"),
        "Not implemented: non-primitive parameter types"
    );
}

#[test]
fn parse_type_matches_the_primitive_table() {
    let parser = Parser::new();
    let mut t = Tokenizer::new(b"I32 U1 Bool F128 Custom".to_vec());
    let mut kinds = Vec::new();
    for _ in 0..5 {
        kinds.push(parser.parse_type(ScopeKind::GlobalNamespace, &mut t).unwrap());
    }
    assert!(matches!(kinds[0], TypeKind::Primitive(Primitive::I32)));
    assert!(matches!(kinds[1], TypeKind::Primitive(Primitive::U1)));
    assert!(matches!(kinds[2], TypeKind::Primitive(Primitive::Bool)));
    assert!(matches!(kinds[3], TypeKind::Primitive(Primitive::F128)));
    match &kinds[4] {
        TypeKind::Identifier(id) => {
            assert_eq!(id.name, "Custom");
            assert!(matches!(
                id.id_kind,
                IdKind::Unresolved { scope_used: ScopeKind::GlobalNamespace, .. }
            ));
        }
        other => panic!("unexpected type {other:?}"),
    }
    // A token that may end an absent annotation yields `Inferred` unconsumed.
    let mut t2 = Tokenizer::new(b";".to_vec());
    assert!(matches!(
        parser.parse_type(ScopeKind::GlobalNamespace, &mut t2).unwrap(),
        TypeKind::Inferred
    ));
    assert!(matches!(
        t2.next().token_kind,
        mylang_compiler::tokenizer::TokenKind::Semicolon
    ));
    // Anything else is rejected.
    let mut t3 = Tokenizer::new(b"= 1;".to_vec());
    assert!(parser.parse_type(ScopeKind::GlobalNamespace, &mut t3).is_err());
}
