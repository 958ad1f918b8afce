use mylang_compiler::ast::{
    Argument, DeclKeyword, DeclKind, Declaration, FuncType, GlobalNamespace, Location, Primitive,
    Program, Scope, ScopeKind, ScopedId, IdKind, SubNamespace, TypeKind, ValueDecl,
};
use mylang_compiler::text::{dec_string, parse_int_literal};

fn value_decl(name: &str, ty: TypeKind) -> Declaration {
    Declaration::ValueDecl(Box::new(ValueDecl {
        public: false,
        decl_keyword: DeclKeyword::Def,
        identifier: name.to_string(),
        type_kind: ty,
        decl_kind: DeclKind::AssignDecl(Box::new(
            mylang_compiler::ast::Expression::Integer("1".to_string()),
        )),
    }))
}

#[test]
fn location_renders_and_advances() {
    let mut loc = Location { line: 1, column: 4 };
    assert_eq!(loc.str(), "line: 1, char: 4");
    loc.inc_char(3);
    assert_eq!(loc.str(), "line: 1, char: 7");
    loc.inc_line();
    assert_eq!(loc.str(), "line: 2, char: 0");
}

#[test]
fn full_names_join_with_dots() {
    let mut root = GlobalNamespace::new();
    let mut outer = SubNamespace::new("outer".to_string(), "");
    assert_eq!(outer.full_name, ".outer");
    let inner = SubNamespace::new("inner".to_string(), &outer.full_name);
    assert_eq!(inner.full_name, ".outer.inner");
    outer.subnamespaces.push(inner);
    root.subnamespaces.push(outer);
    let program = Program { name: "t".to_string(), ast: root };
    assert_eq!(
        program.get_all_namespace_full_names(),
        vec!["".to_string(), ".outer".to_string(), ".outer.inner".to_string()]
    );
}

#[test]
fn namespaced_declarations_walk_preorder() {
    let mut root = GlobalNamespace::new();
    root.declarations.push(value_decl("r", TypeKind::Primitive(Primitive::I32)));
    let mut outer = SubNamespace::new("outer".to_string(), "");
    outer.declarations.push(value_decl("o", TypeKind::Primitive(Primitive::I32)));
    root.subnamespaces.push(outer);
    let program = Program { name: "t".to_string(), ast: root };
    let all = program.get_all_namespaced_declarations();
    let names: Vec<(String, String)> = all
        .iter()
        .map(|(m, d)| {
            let Declaration::ValueDecl(v) = d;
            (m.clone(), v.identifier.clone())
        })
        .collect();
    assert_eq!(
        names,
        vec![("".to_string(), "r".to_string()), (".outer".to_string(), "o".to_string())]
    );
}

#[test]
fn uniqueness_checks() {
    let mut root = GlobalNamespace::new();
    root.declarations.push(value_decl("a", TypeKind::Primitive(Primitive::I32)));
    assert!(!root.is_unique_identifier(&value_decl("a", TypeKind::Inferred)));
    assert!(root.is_unique_identifier(&value_decl("b", TypeKind::Inferred)));
    // A sub-namespace check descends into its children.
    let mut outer = SubNamespace::new("outer".to_string(), "");
    let mut inner = SubNamespace::new("inner".to_string(), ".outer");
    inner.declarations.push(value_decl("deep", TypeKind::Inferred));
    outer.subnamespaces.push(inner);
    assert!(!outer.is_unique_identifier(&value_decl("deep", TypeKind::Inferred)));
    assert!(outer.is_unique_identifier(&value_decl("other", TypeKind::Inferred)));
}

#[test]
fn scope_resolution_rewrites_identifiers() {
    let mut root = GlobalNamespace::new();
    root.declarations.push(value_decl("a", TypeKind::Primitive(Primitive::I32)));
    let mut id = ScopedId {
        name: "a".to_string(),
        id_kind: IdKind::Unresolved {
            scope_used: ScopeKind::GlobalNamespace,
            scope_described: Vec::new(),
        },
    };
    assert!(root.resolve_identifier(&mut id, ScopeKind::GlobalNamespace));
    match id.id_kind {
        IdKind::Resolved { declaration, ref scope } => {
            assert_eq!(declaration, 0);
            assert!(matches!(scope, ScopeKind::GlobalNamespace));
        }
        ref other => panic!("unexpected kind {other:?}"),
    }
    let mut missing = ScopedId {
        name: "zz".to_string(),
        id_kind: IdKind::Unresolved {
            scope_used: ScopeKind::GlobalNamespace,
            scope_described: Vec::new(),
        },
    };
    assert!(!root.resolve_identifier(&mut missing, ScopeKind::GlobalNamespace));
    assert_eq!(root.get_full_name(), "");
}

#[test]
fn type_identity() {
    let i32t = TypeKind::Primitive(Primitive::I32);
    let u1 = TypeKind::Primitive(Primitive::U1);
    let boolean = TypeKind::Primitive(Primitive::Bool);
    assert!(i32t.is_same_type(&TypeKind::Primitive(Primitive::I32)));
    assert!(!i32t.is_same_type(&TypeKind::Primitive(Primitive::U32)));
    // `U1` and `Bool` emit the same IR type but stay distinct source types.
    assert!(!u1.is_same_type(&boolean));
    assert!(i32t.is_type_int() && i32t.is_type_primitive() && !i32t.is_type_float());
    let f = TypeKind::Primitive(Primitive::F64);
    assert!(f.is_type_float() && !f.is_type_int());
    assert!(!TypeKind::Inferred.is_type_primitive());
    // Function types agree only on empty parameter lists and equal returns.
    let nullary = |ret: Primitive| FuncType {
        arguments: Vec::new(),
        return_type: Box::new(TypeKind::Primitive(ret)),
    };
    assert!(nullary(Primitive::I8).is_same_type(&nullary(Primitive::I8)));
    assert!(!nullary(Primitive::I8).is_same_type(&nullary(Primitive::I16)));
    let unary = FuncType {
        arguments: vec![Argument {
            decl: value_decl("x", TypeKind::Primitive(Primitive::I8)),
        }],
        return_type: Box::new(TypeKind::Primitive(Primitive::I8)),
    };
    assert!(!unary.is_same_type(&unary));
    let da = value_decl("a", TypeKind::Primitive(Primitive::I8));
    assert!(!da.is_same_type(&da));
}

#[test]
fn integer_literals_parse_without_loss() {
    assert_eq!(parse_int_literal("0"), Some(0));
    assert_eq!(parse_int_literal("42"), Some(42));
    assert_eq!(parse_int_literal("0042"), Some(42));
    assert_eq!(
        parse_int_literal("340282366920938463463374607431768211455"),
        Some(u128::MAX)
    );
    assert_eq!(parse_int_literal("340282366920938463463374607431768211456"), None);
    assert_eq!(parse_int_literal(""), None);
    assert_eq!(parse_int_literal("4x2"), None);
    for n in [0u128, 7, 10, 99, 100, 12345678901234567890] {
        assert_eq!(parse_int_literal(&dec_string(n)), Some(n));
    }
}

#[test]
fn decimal_strings() {
    assert_eq!(dec_string(0), "0");
    assert_eq!(dec_string(7), "7");
    assert_eq!(dec_string(65535), "65535");
    assert_eq!(dec_string(u128::MAX), "340282366920938463463374607431768211455");
}
