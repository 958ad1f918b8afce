//! The IR emitter: walks a resolved program and renders one textual LLVM
//! module per namespace, returning the root module's text. Globals carry
//! their linkage, mutability, type, and constant initializer; functions get a
//! single `entry` block that returns a parameter or a literal.

use vstd::prelude::*;
use crate::ast::Argument;
use crate::ast::DeclKeyword;
use crate::ast::DeclKind;
use crate::ast::Declaration;
use crate::ast::Expression;
use crate::ast::Primitive;
use crate::ast::Program;
use crate::ast::ScopedId;
use crate::ast::SpecIdKind;
use crate::ast::SpecScopeKind;
use crate::ast::TypeKind;
use crate::ast::ValueDecl;
use crate::ast::decl_value;
use crate::ast::decl_ident;
use crate::ast::func_args;
use crate::text::dec_chars;
use crate::text::dec_string;

verus! {

// ---------------------------------------------------------------------------
// Type categories and their IR spellings.
// ---------------------------------------------------------------------------

/// Whether a primitive is integer-kind; `U1` and `Bool` both are.
pub open spec fn is_int_kind(p: Primitive) -> bool {
    match p {
        Primitive::I8 | Primitive::I16 | Primitive::I32 | Primitive::I64 | Primitive::I128 => true,
        Primitive::U8 | Primitive::U16 | Primitive::U32 | Primitive::U64 | Primitive::U128 => true,
        Primitive::U1 | Primitive::Bool => true,
        _ => false,
    }
}

/// Whether a primitive is float-kind.
pub open spec fn is_float_kind(p: Primitive) -> bool {
    match p {
        Primitive::F16 | Primitive::F32 | Primitive::F64 | Primitive::F128 => true,
        _ => false,
    }
}

/// The IR spelling of a primitive type. Sign lives in operations, not in the
/// integer type, so signed and unsigned widths coincide; `U1` and `Bool`
/// both emit the one-bit integer type.
pub open spec fn prim_text(p: Primitive) -> Seq<char> {
    match p {
        Primitive::U8 | Primitive::I8 => "i8"@,
        Primitive::U16 | Primitive::I16 => "i16"@,
        Primitive::U32 | Primitive::I32 => "i32"@,
        Primitive::U64 | Primitive::I64 => "i64"@,
        Primitive::U128 | Primitive::I128 => "i128"@,
        Primitive::U1 | Primitive::Bool => "i1"@,
        Primitive::F16 => "half"@,
        Primitive::F32 => "float"@,
        Primitive::F64 => "double"@,
        Primitive::F128 => "fp128"@,
    }
}

/// The linkage prefix: external linkage is the default and prints nothing,
/// private linkage is spelled out.
pub open spec fn linkage_text(public: bool) -> Seq<char> {
    if public {
        Seq::empty()
    } else {
        "private "@
    }
}

/// `var` declares a mutable global; `let` and `def` declare constants.
pub open spec fn mutability_text(kw: DeclKeyword) -> Seq<char> {
    match kw {
        DeclKeyword::Var => "global"@,
        _ => "constant"@,
    }
}

impl TypeKind {
    /// Whether this type is a primitive.
    pub fn is_type_primitive(&self) -> (r: bool)
        ensures
            r == self is Primitive,
    {
        matches!(self, TypeKind::Primitive(_))
    }

    /// Whether this type is an integer-kind primitive.
    pub fn is_type_int(&self) -> (r: bool)
        ensures
            r == (match *self {
                TypeKind::Primitive(p) => is_int_kind(p),
                _ => false,
            }),
    {
        match self {
            TypeKind::Primitive(p) => match p {
                Primitive::I8 | Primitive::I16 | Primitive::I32 | Primitive::I64
                    | Primitive::I128 => true,
                Primitive::U8 | Primitive::U16 | Primitive::U32 | Primitive::U64
                    | Primitive::U128 => true,
                Primitive::U1 | Primitive::Bool => true,
                _ => false,
            },
            _ => false,
        }
    }

    /// Whether this type is a float-kind primitive.
    pub fn is_type_float(&self) -> (r: bool)
        ensures
            r == (match *self {
                TypeKind::Primitive(p) => is_float_kind(p),
                _ => false,
            }),
    {
        match self {
            TypeKind::Primitive(p) => match p {
                Primitive::F16 | Primitive::F32 | Primitive::F64 | Primitive::F128 => true,
                _ => false,
            },
            _ => false,
        }
    }
}

// ---------------------------------------------------------------------------
// The emission environment: every global emitted so far.
// ---------------------------------------------------------------------------

/// A global already emitted: its module's full name, its identifier, its IR
/// type, and its constant initializer text.
pub struct SpecGlobal {
    pub module: Seq<char>,
    pub name: Seq<char>,
    pub ty: Seq<char>,
    pub init: Seq<char>,
}

/// The first emitted global of that module and name, if any.
pub open spec fn env_find(env: Seq<SpecGlobal>, module: Seq<char>, name: Seq<char>) -> Option<
    SpecGlobal,
>
    decreases env.len(),
{
    if env.len() == 0 {
        None
    } else if env[0].module == module && env[0].name == name {
        Some(env[0])
    } else {
        env_find(env.drop_first(), module, name)
    }
}

// ---------------------------------------------------------------------------
// Emission of one global value.
// ---------------------------------------------------------------------------

/// The line declaring a global.
pub open spec fn global_line(
    name: Seq<char>,
    public: bool,
    kw: DeclKeyword,
    ty: Seq<char>,
    init: Seq<char>,
) -> Seq<char> {
    "@"@ + name + " = "@ + linkage_text(public) + mutability_text(kw) + " "@ + ty + " "@ + init
        + "\n"@
}

/// The initializer text a global assignment denotes, or an error message.
/// Integer-kind globals take integer literals, booleans (as 1 or 0), and
/// identifiers of already-emitted globals of the same type; float-kind
/// globals take decimal and integer literals and identifiers likewise.
pub open spec fn init_text_of(
    env: Seq<SpecGlobal>,
    p: Primitive,
    e: Expression,
) -> Result<Seq<char>, Seq<char>> {
    match e {
        Expression::Integer(t) => Ok(t@),
        Expression::Decimal(t) => if is_float_kind(p) {
            Ok(t@)
        } else {
            Err("Decimal literal of this type is not implemented"@)
        },
        Expression::Bool(b) => if is_int_kind(p) {
            if b {
                Ok("1"@)
            } else {
                Ok("0"@)
            }
        } else {
            Err("Boolean literal of this type is not implemented"@)
        },
        Expression::Identifier(id) => (match id.id_kind@ {
            SpecIdKind::Resolved { scope, .. } => (match scope {
                SpecScopeKind::GlobalNamespace => (match env_find(env, Seq::empty(), id.name@) {
                    Some(g) => if g.ty == prim_text(p) {
                        Ok(g.init)
                    } else {
                        Err("Identifier of an incompatible type"@)
                    },
                    None => Err("Identifier had not yet been declared"@),
                }),
                _ => Err("Identifier of this scope is not implemented"@),
            }),
            SpecIdKind::Unresolved { .. } => Err("Unknown identifier"@),
        }),
    }
}

/// Emit one global assignment: its line of IR and its environment entry, or
/// an error message.
pub open spec fn emit_global(env: Seq<SpecGlobal>, module: Seq<char>, v: ValueDecl, e: Expression) -> Result<
    (Seq<char>, SpecGlobal),
    Seq<char>,
> {
    match v.type_kind {
        TypeKind::Primitive(p) => (match init_text_of(env, p, e) {
            Ok(init) => Ok(
                (
                    global_line(v.identifier@, v.public, v.decl_keyword, prim_text(p), init),
                    SpecGlobal {
                        module,
                        name: v.identifier@,
                        ty: prim_text(p),
                        init,
                    },
                ),
            ),
            Err(m) => Err(m),
        }),
        _ => Err("Global of this type is not implemented"@),
    }
}

} // verus!

verus! {

// ---------------------------------------------------------------------------
// Emission of one function.
// ---------------------------------------------------------------------------

/// The index of the first declaration in `decls[k..]` binding `name`, or -1.
pub open spec fn first_idx_from(decls: Seq<Declaration>, name: Seq<char>, k: int) -> int
    decreases decls.len() - k,
{
    if k < 0 || k >= decls.len() {
        -1
    } else if decl_ident(decls[k]) == name {
        k
    } else {
        first_idx_from(decls, name, k + 1)
    }
}

/// Whether every parameter carries a primitive type.
pub open spec fn args_primitive(args: Seq<Argument>) -> bool {
    forall|j: int| 0 <= j < args.len() ==> decl_value((#[trigger] args[j]).decl).type_kind is Primitive
}

/// The parameter list text from index `k` on: each parameter's type and its
/// number, comma-separated.
pub open spec fn params_text_from(args: Seq<Argument>, k: int) -> Seq<char>
    recommends
        args_primitive(args),
    decreases args.len() - k,
{
    if k < 0 || k >= args.len() {
        Seq::empty()
    } else {
        let t = match decl_value(args[k].decl).type_kind {
            TypeKind::Primitive(p) => prim_text(p),
            _ => Seq::empty(),
        };
        let piece = t + " %"@ + dec_chars(k as nat);
        if k + 1 < args.len() {
            piece + ", "@ + params_text_from(args, k + 1)
        } else {
            piece
        }
    }
}

/// The parameter declarations of a parameter list.
pub open spec fn arg_decls(args: Seq<Argument>) -> Seq<Declaration> {
    args.map(|i: int, a: Argument| a.decl)
}

/// The `ret` line of a function body, or an error message. An identifier
/// must name a parameter whose type fits the return kind; literals follow
/// the same kind rules as global initializers.
pub open spec fn ret_line(ret: Primitive, args: Seq<Argument>, e: Expression) -> Result<
    Seq<char>,
    Seq<char>,
> {
    let rett = prim_text(ret);
    match e {
        Expression::Integer(t) => Ok("  ret "@ + rett + " "@ + t@ + "\n"@),
        Expression::Decimal(t) => if is_float_kind(ret) {
            Ok("  ret "@ + rett + " "@ + t@ + "\n"@)
        } else {
            Err("Cannot return a decimal literal from an integer function"@)
        },
        Expression::Bool(b) => if is_int_kind(ret) {
            Ok("  ret "@ + rett + " "@ + (if b { "1"@ } else { "0"@ }) + "\n"@)
        } else {
            Err("Cannot return a boolean literal from a floating point function"@)
        },
        Expression::Identifier(id) => {
            let decls = arg_decls(args);
            let j = first_idx_from(decls, id.name@, 0);
            if j < 0 {
                Err("Identifier not found in function arguments"@)
            } else {
                let argty = decl_value(decls[j]).type_kind;
                if is_int_kind(ret) {
                    if crate::ast::same_type(TypeKind::Primitive(ret), argty) {
                        Ok("  ret "@ + rett + " %"@ + dec_chars(j as nat) + "\n"@)
                    } else {
                        Err("Cannot return a value of this type from an integer function"@)
                    }
                } else {
                    match argty {
                        TypeKind::Primitive(q) => if is_int_kind(q) {
                            Err("Cannot return an integer value from a floating point function"@)
                        } else {
                            Ok("  ret "@ + rett + " %"@ + dec_chars(j as nat) + "\n"@)
                        },
                        _ => Err(
                            "Cannot return a value of this type from a floating point function"@,
                        ),
                    }
                }
            }
        },
    }
}

/// Emit one function: its full IR text, or an error message. The type must
/// be a function type over primitive parameters with a primitive return
/// type; the body is a single `entry` block with one `ret`.
pub open spec fn emit_function(v: ValueDecl, e: Expression) -> Result<Seq<char>, Seq<char>> {
    match v.type_kind {
        TypeKind::FuncType(f) => (match *f.return_type {
            TypeKind::Primitive(ret) => if !args_primitive(f.arguments@) {
                Err("Primitive type not implemented"@)
            } else {
                match ret_line(ret, f.arguments@, e) {
                    Ok(line) => Ok(
                        "define "@ + linkage_text(v.public) + prim_text(ret) + " @"@
                            + v.identifier@ + "("@ + params_text_from(f.arguments@, 0) + ") {\n"@
                            + "entry:\n"@ + line + "}\n"@,
                    ),
                    Err(m) => Err(m),
                }
            },
            _ => Err("Function declaration of this type is not implemented"@),
        }),
        _ => Err("Function did not have a function type"@),
    }
}

/// Emit one declaration into its module: the text it contributes and, for a
/// global value, its environment entry.
pub open spec fn emit_decl(env: Seq<SpecGlobal>, module: Seq<char>, d: Declaration) -> Result<
    (Seq<char>, Seq<SpecGlobal>),
    Seq<char>,
> {
    let v = decl_value(d);
    match v.decl_kind {
        DeclKind::EmptyDecl => Err("Not implemented: declaration without a value"@),
        DeclKind::AssignDecl(e) => (match emit_global(env, module, v, *e) {
            Ok((text, entry)) => Ok((text, seq![entry])),
            Err(m) => Err(m),
        }),
        DeclKind::FuncDecl(e) => (match emit_function(v, *e) {
            Ok(text) => Ok((text, Seq::empty())),
            Err(m) => Err(m),
        }),
    }
}

/// Emit the declarations from `k` on, extending the environment; the text of
/// declarations in the root module (the empty full name) accumulates into
/// `root`, which a successful run returns.
pub open spec fn emit_from(
    pairs: Seq<(Seq<char>, Declaration)>,
    k: int,
    env: Seq<SpecGlobal>,
    root: Seq<char>,
) -> Result<Seq<char>, Seq<char>>
    decreases pairs.len() - k,
{
    if k < 0 || k >= pairs.len() {
        Ok(root)
    } else {
        match emit_decl(env, pairs[k].0, pairs[k].1) {
            Ok((text, entries)) => emit_from(
                pairs,
                k + 1,
                env + entries,
                if pairs[k].0 == Seq::<char>::empty() {
                    root + text
                } else {
                    root
                },
            ),
            Err(m) => Err(m),
        }
    }
}

/// The IR of a whole program: its namespaced declarations emitted in order,
/// the root module's text returned.
pub open spec fn emit_program(pairs: Seq<(Seq<char>, Declaration)>) -> Result<Seq<char>, Seq<char>> {
    emit_from(pairs, 0, Seq::empty(), Seq::empty())
}

} // verus!

verus! {

// ---------------------------------------------------------------------------
// The executable emitter.
// ---------------------------------------------------------------------------

/// A fatal emission error.
#[derive(Debug)]
pub struct EmitError {
    pub message: String,
}

/// An emitted global, as the emitter stores it.
#[derive(Debug)]
pub struct EnvGlobal {
    pub module: String,
    pub name: String,
    pub ty: String,
    pub init: String,
}

impl View for EnvGlobal {
    type V = SpecGlobal;

    open spec fn view(&self) -> SpecGlobal {
        SpecGlobal { module: self.module@, name: self.name@, ty: self.ty@, init: self.init@ }
    }
}

pub open spec fn env_views(env: Seq<EnvGlobal>) -> Seq<SpecGlobal> {
    env.map(|i: int, g: EnvGlobal| g@)
}

/// The IR spelling of a primitive type.
fn prim_text_exec(p: Primitive) -> (s: String)
    ensures
        s@ == prim_text(p),
{
    match p {
        Primitive::U8 | Primitive::I8 => "i8".to_owned(),
        Primitive::U16 | Primitive::I16 => "i16".to_owned(),
        Primitive::U32 | Primitive::I32 => "i32".to_owned(),
        Primitive::U64 | Primitive::I64 => "i64".to_owned(),
        Primitive::U128 | Primitive::I128 => "i128".to_owned(),
        Primitive::U1 | Primitive::Bool => "i1".to_owned(),
        Primitive::F16 => "half".to_owned(),
        Primitive::F32 => "float".to_owned(),
        Primitive::F64 => "double".to_owned(),
        Primitive::F128 => "fp128".to_owned(),
    }
}

fn int_kind(p: Primitive) -> (r: bool)
    ensures
        r == is_int_kind(p),
{
    match p {
        Primitive::I8 | Primitive::I16 | Primitive::I32 | Primitive::I64 | Primitive::I128 => true,
        Primitive::U8 | Primitive::U16 | Primitive::U32 | Primitive::U64 | Primitive::U128 => true,
        Primitive::U1 | Primitive::Bool => true,
        _ => false,
    }
}

fn float_kind(p: Primitive) -> (r: bool)
    ensures
        r == is_float_kind(p),
{
    match p {
        Primitive::F16 | Primitive::F32 | Primitive::F64 | Primitive::F128 => true,
        _ => false,
    }
}

/// Look up an emitted global by module and name.
fn env_find_exec<'e>(env: &'e Vec<EnvGlobal>, module: &String, name: &String) -> (r: Option<
    &'e EnvGlobal,
>)
    ensures
        (match env_find(env_views(env@), module@, name@) {
            Some(g) => (match r {
                Some(e) => e@ == g,
                None => false,
            }),
            None => r is None,
        }),
{
    proof {
        assert(env_views(env@).skip(0) =~= env_views(env@));
    }
    let mut i: usize = 0;
    while i < env.len()
        invariant
            i <= env@.len(),
            env_find(env_views(env@), module@, name@) == env_find(
                env_views(env@).skip(i as int),
                module@,
                name@,
            ),
        decreases env@.len() - i,
    {
        proof {
            assert(env_views(env@).skip(i as int)[0] == env@[i as int]@);
            assert(env_views(env@).skip(i as int).drop_first() =~= env_views(env@).skip(
                i as int + 1,
            ));
        }
        let g = &env[i];
        if g.module == *module && g.name == *name {
            return Some(g);
        }
        i = i + 1;
    }
    proof {
        assert(env_views(env@).skip(i as int) =~= Seq::<SpecGlobal>::empty());
    }
    None
}

} // verus!

verus! {

/// Build the line declaring a global.
fn global_line_exec(
    name: &String,
    public: bool,
    kw: DeclKeyword,
    ty: &String,
    init: &String,
) -> (s: String)
    ensures
        s@ == global_line(name@, public, kw, ty@, init@),
{
    let mut s = "@".to_owned();
    s.append(name.as_str());
    s.append(" = ");
    if !public {
        s.append("private ");
    }
    match kw {
        DeclKeyword::Var => s.append("global"),
        _ => s.append("constant"),
    }
    s.append(" ");
    s.append(ty.as_str());
    s.append(" ");
    s.append(init.as_str());
    s.append("\n");
    proof {
        assert(s@ =~= global_line(name@, public, kw, ty@, init@));
    }
    s
}

/// Compute a global's initializer text.
fn init_text_exec(env: &Vec<EnvGlobal>, p: Primitive, e: &Expression) -> (r: Result<
    String,
    EmitError,
>)
    ensures
        (match init_text_of(env_views(env@), p, *e) {
            Ok(t) => (match r {
                Ok(s) => s@ == t,
                Err(_) => false,
            }),
            Err(m) => (match r {
                Ok(_) => false,
                Err(err) => err.message@ == m,
            }),
        }),
{
    match e {
        Expression::Integer(t) => Ok(t.clone()),
        Expression::Decimal(t) => {
            if float_kind(p) {
                Ok(t.clone())
            } else {
                Err(
                    EmitError {
                        message: "Decimal literal of this type is not implemented".to_owned(),
                    },
                )
            }
        },
        Expression::Bool(b) => {
            if int_kind(p) {
                if *b {
                    Ok("1".to_owned())
                } else {
                    Ok("0".to_owned())
                }
            } else {
                Err(
                    EmitError {
                        message: "Boolean literal of this type is not implemented".to_owned(),
                    },
                )
            }
        },
        Expression::Identifier(id) => {
            match &id.id_kind {
                crate::ast::IdKind::Resolved { scope, .. } => {
                    match scope {
                        crate::ast::ScopeKind::GlobalNamespace => {
                            let root_module = String::new();
                            match env_find_exec(env, &root_module, &id.name) {
                                Some(g) => {
                                    let ty = prim_text_exec(p);
                                    if g.ty == ty {
                                        Ok(g.init.clone())
                                    } else {
                                        Err(
                                            EmitError {
                                                message: "Identifier of an incompatible type".to_owned(),
                                            },
                                        )
                                    }
                                },
                                None => Err(
                                    EmitError {
                                        message: "Identifier had not yet been declared".to_owned(),
                                    },
                                ),
                            }
                        },
                        _ => Err(
                            EmitError {
                                message: "Identifier of this scope is not implemented".to_owned(),
                            },
                        ),
                    }
                },
                crate::ast::IdKind::Unresolved { .. } => Err(
                    EmitError { message: "Unknown identifier".to_owned() },
                ),
            }
        },
    }
}

/// Build the parameter list of a function.
fn params_text_exec(args: &Vec<Argument>) -> (s: String)
    requires
        args_primitive(args@),
    ensures
        s@ == params_text_from(args@, 0),
{
    let mut s = String::new();
    let mut k: usize = 0;
    proof {
        if args@.len() == 0 {
            assert(s@ =~= params_text_from(args@, 0));
        }
    }
    while k < args.len()
        invariant
            k <= args@.len(),
            args_primitive(args@),
            params_text_from(args@, 0) == s@ + params_text_from(args@, k as int),
            k == args@.len() ==> s@ == params_text_from(args@, 0),
        decreases args@.len() - k,
    {
        let Declaration::ValueDecl(v) = &args[k].decl;
        let t = match &v.type_kind {
            TypeKind::Primitive(p) => prim_text_exec(*p),
            _ => vstd::pervasive::unreached(),
        };
        let ghost pre = s@;
        s.append(t.as_str());
        s.append(" %");
        s.append(dec_string(k as u128).as_str());
        if k + 1 < args.len() {
            s.append(", ");
            proof {
                assert(s@ =~= pre + (t@ + " %"@ + dec_chars(k as nat) + ", "@));
                assert(params_text_from(args@, k as int) =~= (t@ + " %"@ + dec_chars(k as nat)
                    + ", "@) + params_text_from(args@, k as int + 1));
                assert(params_text_from(args@, 0) =~= s@ + params_text_from(args@, k as int + 1));
            }
        } else {
            proof {
                assert(s@ =~= pre + (t@ + " %"@ + dec_chars(k as nat)));
                assert(params_text_from(args@, k as int) =~= t@ + " %"@ + dec_chars(k as nat));
                assert(params_text_from(args@, k as int + 1) =~= Seq::<char>::empty());
                assert(params_text_from(args@, 0) =~= s@ + params_text_from(args@, k as int + 1));
                assert(params_text_from(args@, 0) =~= s@);
            }
        }
        k = k + 1;
    }
    s
}

/// The first parameter binding `name`, if any.
#[verifier::loop_isolation(false)]
fn find_param(args: &Vec<Argument>, name: &String) -> (r: Option<usize>)
    ensures
        (match r {
            Some(x) => first_idx_from(arg_decls(args@), name@, 0) == x as int && x < args@.len(),
            None => first_idx_from(arg_decls(args@), name@, 0) == -1,
        }),
{
    let ghost decls = arg_decls(args@);
    let mut j: usize = 0;
    while j < args.len()
        invariant
            j <= args@.len(),
            first_idx_from(decls, name@, 0) == first_idx_from(decls, name@, j as int),
        decreases args@.len() - j,
    {
        proof {
            assert(decls[j as int] == args@[j as int].decl);
        }
        let Declaration::ValueDecl(v) = &args[j].decl;
        if v.identifier == *name {
            return Some(j);
        }
        j = j + 1;
    }
    None
}

/// Build the `ret` line of a function body.
fn ret_line_exec(ret: Primitive, args: &Vec<Argument>, e: &Expression) -> (r: Result<
    String,
    EmitError,
>)
    ensures
        (match ret_line(ret, args@, *e) {
            Ok(t) => (match r {
                Ok(s) => s@ == t,
                Err(_) => false,
            }),
            Err(m) => (match r {
                Ok(_) => false,
                Err(err) => err.message@ == m,
            }),
        }),
{
    let rett = prim_text_exec(ret);
    match e {
        Expression::Integer(t) => {
            let mut s = "  ret ".to_owned();
            s.append(rett.as_str());
            s.append(" ");
            s.append(t.as_str());
            s.append("\n");
            proof {
                assert(s@ =~= "  ret "@ + rett@ + " "@ + t@ + "\n"@);
            }
            Ok(s)
        },
        Expression::Decimal(t) => {
            if float_kind(ret) {
                let mut s = "  ret ".to_owned();
                s.append(rett.as_str());
                s.append(" ");
                s.append(t.as_str());
                s.append("\n");
                proof {
                    assert(s@ =~= "  ret "@ + rett@ + " "@ + t@ + "\n"@);
                }
                Ok(s)
            } else {
                Err(
                    EmitError {
                        message: "Cannot return a decimal literal from an integer function".to_owned(),
                    },
                )
            }
        },
        Expression::Bool(b) => {
            if int_kind(ret) {
                let mut s = "  ret ".to_owned();
                s.append(rett.as_str());
                s.append(" ");
                s.append(if *b { "1" } else { "0" });
                s.append("\n");
                proof {
                    assert(s@ =~= "  ret "@ + rett@ + " "@ + (if *b { "1"@ } else { "0"@ })
                        + "\n"@);
                }
                Ok(s)
            } else {
                Err(
                    EmitError {
                        message: "Cannot return a boolean literal from a floating point function".to_owned(),
                    },
                )
            }
        },
        Expression::Identifier(id) => {
            let ghost decls = arg_decls(args@);
            let found = find_param(args, &id.name);
            match found {
                None => Err(
                    EmitError {
                        message: "Identifier not found in function arguments".to_owned(),
                    },
                ),
                Some(x) => {
                    proof {
                        assert(decls[x as int] == args@[x as int].decl);
                    }
                    let Declaration::ValueDecl(v) = &args[x].decl;
                    let ok: bool = if int_kind(ret) {
                        match &v.type_kind {
                            TypeKind::Primitive(q) => *q == ret,
                            _ => false,
                        }
                    } else {
                        match &v.type_kind {
                            TypeKind::Primitive(q) => float_kind(*q),
                            _ => false,
                        }
                    };
                    if ok {
                        let mut s = "  ret ".to_owned();
                        s.append(rett.as_str());
                        s.append(" %");
                        s.append(dec_string(x as u128).as_str());
                        s.append("\n");
                        proof {
                            assert(s@ =~= "  ret "@ + rett@ + " %"@ + dec_chars(x as nat)
                                + "\n"@);
                        }
                        Ok(s)
                    } else if int_kind(ret) {
                        Err(
                            EmitError {
                                message: "Cannot return a value of this type from an integer function".to_owned(),
                            },
                        )
                    } else {
                        match &v.type_kind {
                            TypeKind::Primitive(_) => Err(
                                EmitError {
                                    message: "Cannot return an integer value from a floating point function".to_owned(),
                                },
                            ),
                            _ => Err(
                                EmitError {
                                    message: "Cannot return a value of this type from a floating point function".to_owned(),
                                },
                            ),
                        }
                    }
                },
            }
        },
    }
}

} // verus!

verus! {

/// Whether every parameter carries a primitive type.
fn args_primitive_exec(args: &Vec<Argument>) -> (r: bool)
    ensures
        r == args_primitive(args@),
{
    let mut j: usize = 0;
    while j < args.len()
        invariant
            j <= args@.len(),
            forall|x: int|
                0 <= x < j ==> decl_value((#[trigger] args@[x]).decl).type_kind is Primitive,
        decreases args@.len() - j,
    {
        let Declaration::ValueDecl(v) = &args[j].decl;
        if !v.type_kind.is_type_primitive() {
            return false;
        }
        j = j + 1;
    }
    true
}

/// Emit one function as IR text.
fn emit_function_exec(v: &ValueDecl, e: &Expression) -> (r: Result<String, EmitError>)
    ensures
        (match emit_function(*v, *e) {
            Ok(t) => (match r {
                Ok(s) => s@ == t,
                Err(_) => false,
            }),
            Err(m) => (match r {
                Ok(_) => false,
                Err(err) => err.message@ == m,
            }),
        }),
{
    match &v.type_kind {
        TypeKind::FuncType(f) => {
            match &*f.return_type {
                TypeKind::Primitive(ret) => {
                    if !args_primitive_exec(&f.arguments) {
                        return Err(
                            EmitError { message: "Primitive type not implemented".to_owned() },
                        );
                    }
                    let line = match ret_line_exec(*ret, &f.arguments, e) {
                        Ok(line) => line,
                        Err(err) => {
                            return Err(err);
                        },
                    };
                    let rett = prim_text_exec(*ret);
                    let params = params_text_exec(&f.arguments);
                    let mut s = "define ".to_owned();
                    if !v.public {
                        s.append("private ");
                    }
                    s.append(rett.as_str());
                    s.append(" @");
                    s.append(v.identifier.as_str());
                    s.append("(");
                    s.append(params.as_str());
                    s.append(") {\n");
                    s.append("entry:\n");
                    s.append(line.as_str());
                    s.append("}\n");
                    proof {
                        assert(s@ =~= "define "@ + linkage_text(v.public) + prim_text(*ret)
                            + " @"@ + v.identifier@ + "("@ + params_text_from(f.arguments@, 0)
                            + ") {\n"@ + "entry:\n"@ + line@ + "}\n"@);
                    }
                    Ok(s)
                },
                _ => Err(
                    EmitError {
                        message: "Function declaration of this type is not implemented".to_owned(),
                    },
                ),
            }
        },
        _ => Err(EmitError { message: "Function did not have a function type".to_owned() }),
    }
}

/// Emit one declaration: its IR text and, for a global value, the
/// environment entry it adds.
fn emit_decl_exec(env: &Vec<EnvGlobal>, module: &String, d: &Declaration) -> (r: Result<
    (String, Option<EnvGlobal>),
    EmitError,
>)
    ensures
        (match emit_decl(env_views(env@), module@, *d) {
            Ok((text, entries)) => (match r {
                Ok(p) => p.0@ == text && (match p.1 {
                    Some(g) => entries =~= seq![g@],
                    None => entries.len() == 0,
                }),
                Err(_) => false,
            }),
            Err(m) => (match r {
                Ok(_) => false,
                Err(err) => err.message@ == m,
            }),
        }),
{
    let Declaration::ValueDecl(v) = d;
    match &v.decl_kind {
        DeclKind::EmptyDecl => Err(
            EmitError { message: "Not implemented: declaration without a value".to_owned() },
        ),
        DeclKind::AssignDecl(e) => {
            match &v.type_kind {
                TypeKind::Primitive(p) => {
                    match init_text_exec(env, *p, e) {
                        Ok(init) => {
                            let ty = prim_text_exec(*p);
                            let line = global_line_exec(
                                &v.identifier,
                                v.public,
                                v.decl_keyword,
                                &ty,
                                &init,
                            );
                            let entry = EnvGlobal {
                                module: module.clone(),
                                name: v.identifier.clone(),
                                ty,
                                init,
                            };
                            Ok((line, Some(entry)))
                        },
                        Err(err) => Err(err),
                    }
                },
                _ => Err(
                    EmitError { message: "Global of this type is not implemented".to_owned() },
                ),
            }
        },
        DeclKind::FuncDecl(e) => {
            match emit_function_exec(v, e) {
                Ok(text) => Ok((text, None)),
                Err(err) => Err(err),
            }
        },
    }
}

/// The namespaced declarations of a program, with their module names viewed
/// as character sequences.
pub open spec fn program_pairs(p: Program) -> Seq<(Seq<char>, Declaration)> {
    p.ast.declarations@.map(|i: int, d: Declaration| (Seq::<char>::empty(), d))
        + crate::ast::subs_namespaced_decls(p.ast.subnamespaces@).map(
        |i: int, pr: (String, Declaration)| (pr.0@, pr.1),
    )
}

/// Walk the resolved program and emit every declaration into its module;
/// the root module's IR text is returned.
#[verifier::loop_isolation(false)]
pub fn generate(program: Program) -> (r: Result<String, EmitError>)
    ensures
        (match emit_program(program_pairs(program)) {
            Ok(t) => (match r {
                Ok(s) => s@ == t,
                Err(_) => false,
            }),
            Err(m) => (match r {
                Ok(_) => false,
                Err(err) => err.message@ == m,
            }),
        }),
{
    let ghost prog = program;
    let pairs = program.get_all_namespaced_declarations();
    let ghost pview = program_pairs(prog);
    proof {
        assert(pview.len() == pairs@.len());
        assert forall|i: int| 0 <= i < pairs@.len() implies pview[i] == (
            (#[trigger] pairs@[i]).0@,
            pairs@[i].1,
        ) by {
            let roots = prog.ast.declarations@;
            if i < roots.len() {
            } else {
                assert(pairs@[i] == pairs@.skip(roots.len() as int)[i - roots.len()]);
            }
        }
    }
    let mut env: Vec<EnvGlobal> = Vec::new();
    let mut root = String::new();
    let mut k: usize = 0;
    proof {
        assert(env_views(env@) =~= Seq::<SpecGlobal>::empty());
    }
    while k < pairs.len()
        invariant
            k <= pairs@.len(),
            emit_program(pview) == emit_from(pview, k as int, env_views(env@), root@),
        decreases pairs@.len() - k,
    {
        let step = emit_decl_exec(&env, &pairs[k].0, &pairs[k].1);
        proof {
            assert(pview[k as int] == (pairs@[k as int].0@, pairs@[k as int].1));
        }
        match step {
            Ok((text, entry)) => {
                let ghost env_pre = env_views(env@);
                let ghost root_pre = root@;
                let is_root = pairs[k].0.as_str().is_empty();
                if is_root {
                    root.append(text.as_str());
                }
                match entry {
                    Some(g) => {
                        env.push(g);
                        proof {
                            assert(env_views(env@) =~= env_pre + seq![g@]);
                        }
                    },
                    None => {
                        proof {
                            assert(env_views(env@) =~= env_pre + Seq::<SpecGlobal>::empty());
                        }
                    },
                }
                proof {
                    let sm = emit_decl(env_pre, pview[k as int].0, pview[k as int].1);
                    assert(sm is Ok);
                    assert((pview[k as int].0 == Seq::<char>::empty()) == is_root) by {
                        if is_root {
                            assert(pview[k as int].0 =~= Seq::<char>::empty());
                        }
                        if pview[k as int].0 == Seq::<char>::empty() {
                            assert(pview[k as int].0.len() == 0);
                        }
                    }
                    if is_root {
                        assert(root@ =~= root_pre + sm->Ok_0.0);
                    }
                }
                k = k + 1;
            },
            Err(err) => {
                return Err(err);
            },
        }
    }
    Ok(root)
}

} // verus!
