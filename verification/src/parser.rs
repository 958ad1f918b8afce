//! The recursive-descent parser and the deferred name-resolution pass. The
//! parser consumes tokens and fills the root namespace with declarations,
//! queueing every identifier occurrence it cannot yet bind; `finalize` drains
//! that queue in order, walking each identifier's lexical parent chain, and
//! hands out the resolved tree.

use vstd::prelude::*;
use crate::ast::Argument;
use crate::ast::DeclKeyword;
use crate::ast::DeclKind;
use crate::ast::Declaration;
use crate::ast::Expression;
use crate::ast::FuncType;
use crate::ast::GlobalNamespace;
use crate::ast::IdKind;
use crate::ast::Location;
use crate::ast::Primitive;
use crate::ast::ScopeKind;
use crate::ast::ScopedId;
use crate::ast::SpecIdKind;
use crate::ast::SpecScopeKind;
use crate::ast::TypeKind;
use crate::ast::ValueDecl;
use crate::ast::decl_ident;
use crate::ast::decl_value;
use crate::ast::decls_contain;
use crate::ast::func_args;
use crate::ast::is_first_match;
use crate::ast::loc_chars;
use crate::ast::Scope;
use crate::tokenizer::SpecToken;
use crate::tokenizer::SpecTokenKind;
use crate::tokenizer::Token;
use crate::tokenizer::TokenKind;
use crate::tokenizer::Tokenizer;
use crate::tokenizer::render_kind;

verus! {

// ---------------------------------------------------------------------------
// Parse errors.
// ---------------------------------------------------------------------------

/// A fatal parse error: a message and the offending token's location.
#[derive(Debug)]
pub struct ParseError {
    pub message: String,
    pub location: Location,
}

pub type ParseResult<T> = Result<T, ParseError>;

/// The text listing the expected items of an "unexpected token" message:
/// each in backquotes, separated by commas.
pub open spec fn expected_items_text(items: Seq<Seq<char>>) -> Seq<char>
    decreases items.len(),
{
    if items.len() == 0 {
        Seq::empty()
    } else if items.len() == 1 {
        "`"@ + items[0] + "`"@
    } else {
        expected_items_text(items.drop_last()) + ", `"@ + items.last() + "`"@
    }
}

/// The message of an "unexpected token" error.
pub open spec fn unexpected_text(kind: SpecTokenKind, loc: Location, items: Seq<Seq<char>>) -> Seq<
    char,
> {
    "Unexpected token `"@ + render_kind(kind) + "` at "@ + loc_chars(loc) + ". Expected "@
        + expected_items_text(items)
}

/// The message of a "not implemented" error.
pub open spec fn not_implemented_text(kind: SpecTokenKind, loc: Location) -> Seq<char> {
    "Not implemented: `"@ + render_kind(kind) + "` at "@ + loc_chars(loc)
}

impl ParseError {
    /// The error for a token that fits no expected alternative.
    pub fn unexpected<T>(token: &Token, expected: &[&str]) -> (r: ParseResult<T>)
        ensures
            r is Err,
            (match r {
                Err(e) => e.location == token.location && e.message@ == unexpected_text(
                    token.token_kind@,
                    token.location,
                    expected@.map(|i: int, s: &str| s@),
                ),
                Ok(_) => false,
            }),
    {
        let ghost items = expected@.map(|i: int, s: &str| s@);
        let mut message = "Unexpected token `".to_owned();
        message.append(token.token_kind.str().as_str());
        message.append("` at ");
        message.append(token.location.str().as_str());
        message.append(". Expected ");
        let mut i: usize = 0;
        while i < expected.len()
            invariant
                i <= expected@.len(),
                items == expected@.map(|j: int, s: &str| s@),
                message@ == unexpected_text(token.token_kind@, token.location, items.take(i as int)),
            decreases expected@.len() - i,
        {
            if i == 0 {
                message.append("`");
            } else {
                message.append(", `");
            }
            message.append(expected[i]);
            message.append("`");
            proof {
                assert(items.take(i + 1).drop_last() =~= items.take(i as int));
                assert(items.take(i + 1).last() == items[i as int]);
                if i == 0 {
                    assert(expected_items_text(items.take(1)) =~= "`"@ + items[0] + "`"@);
                }
            }
            i = i + 1;
        }
        proof {
            assert(items.take(i as int) =~= items);
        }
        Err(ParseError { message, location: token.location })
    }

    /// The error for a construct the core does not yet handle.
    pub fn not_implemented<T>(token: &Token) -> (r: ParseResult<T>)
        ensures
            r is Err,
            (match r {
                Err(e) => e.location == token.location && e.message@ == not_implemented_text(
                    token.token_kind@,
                    token.location,
                ),
                Ok(_) => false,
            }),
    {
        let mut message = "Not implemented: `".to_owned();
        message.append(token.token_kind.str().as_str());
        message.append("` at ");
        message.append(token.location.str().as_str());
        Err(ParseError { message, location: token.location })
    }

    /// An error with a fixed message at a token's location.
    pub fn message<T>(token: &Token, message: &'static str) -> (r: ParseResult<T>)
        ensures
            r is Err,
            (match r {
                Err(e) => e.location == token.location && e.message@ == message@,
                Ok(_) => false,
            }),
    {
        Err(ParseError { message: message.to_owned(), location: token.location })
    }
}

} // verus!

verus! {

// ---------------------------------------------------------------------------
// Identifier sites and the unresolved queue.
// ---------------------------------------------------------------------------

/// Where inside a declaration an identifier occurrence can sit: its type
/// annotation, its function's return type, or its value expression.
#[derive(Clone, Copy, Debug, Eq, PartialEq, Structural)]
pub enum IdSite {
    DeclType,
    ReturnType,
    DeclExpr,
}

/// A queued unresolved identifier: the root declaration it sits in and the
/// site within it.
#[derive(Clone, Copy, Debug, Eq, PartialEq, Structural)]
pub struct IdRef {
    pub decl_index: usize,
    pub site: IdSite,
}

/// The identifier occurrence at a site of a declaration, if that site holds
/// one.
pub open spec fn site_id(d: Declaration, site: IdSite) -> Option<ScopedId> {
    let v = decl_value(d);
    match site {
        IdSite::DeclType => match v.type_kind {
            TypeKind::Identifier(id) => Some(*id),
            _ => None,
        },
        IdSite::ReturnType => match v.type_kind {
            TypeKind::FuncType(f) => match *f.return_type {
                TypeKind::Identifier(id) => Some(*id),
                _ => None,
            },
            _ => None,
        },
        IdSite::DeclExpr => match v.decl_kind {
            DeclKind::AssignDecl(e) => match *e {
                Expression::Identifier(id) => Some(*id),
                _ => None,
            },
            DeclKind::FuncDecl(e) => match *e {
                Expression::Identifier(id) => Some(*id),
                _ => None,
            },
            DeclKind::EmptyDecl => None,
        },
    }
}

/// Whether the identifier at a site, if any, is still unresolved.
pub open spec fn site_unresolved(d: Declaration, site: IdSite) -> bool {
    match site_id(d, site) {
        Some(id) => id.id_kind is Unresolved,
        None => false,
    }
}

/// No two declarations of the list bind the same identifier.
pub open spec fn unique_idents(decls: Seq<Declaration>) -> bool {
    forall|i: int, j: int|
        0 <= i < j < decls.len() ==> decl_ident(#[trigger] decls[i]) != decl_ident(
            #[trigger] decls[j],
        )
}

/// The scopes this parser stamps into identifiers: the root namespace, or
/// the function declaration at root index `i`.
pub open spec fn parser_scope(s: SpecScopeKind, i: int) -> bool {
    s == SpecScopeKind::GlobalNamespace || s == SpecScopeKind::Function(Seq::<usize>::empty(), i as usize)
}

/// A queued reference is valid for `decls`: it points at an existing
/// declaration, at a site that holds an identifier; while that identifier is
/// unresolved it carries no qualified path, and its recorded scope is the
/// root or the declaration's own function scope (which then is a function).
pub open spec fn queue_entry_ok(decls: Seq<Declaration>, q: IdRef) -> bool {
    &&& q.decl_index < decls.len()
    &&& (match site_id(decls[q.decl_index as int], q.site) {
        Some(id) => {
            &&& (match id.id_kind@ {
                SpecIdKind::Unresolved { scope_used, scope_described } => {
                    &&& scope_described.len() == 0
                    &&& parser_scope(scope_used, q.decl_index as int)
                    &&& (scope_used is Function ==> decl_value(
                        decls[q.decl_index as int],
                    ).type_kind is FuncType)
                },
                SpecIdKind::Resolved { .. } => true,
            })
        },
        None => false,
    })
}

/// The parameters of every function among `decls` carry primitive types, and
/// no return type is itself a function type; identifiers can then only sit at
/// the three sites.
pub open spec fn decls_site_shape(decls: Seq<Declaration>) -> bool {
    forall|i: int|
        0 <= i < decls.len() ==> (match decl_value(#[trigger] decls[i]).type_kind {
            TypeKind::FuncType(f) => (forall|j: int|
                0 <= j < f.arguments@.len() ==> decl_value(
                    (#[trigger] f.arguments@[j]).decl,
                ).type_kind is Primitive) && !(*f.return_type is FuncType),
            _ => true,
        })
}

/// The parser: the namespace it grows and the FIFO queue of unresolved
/// identifier references.
#[derive(Debug)]
pub struct Parser {
    ast: GlobalNamespace,
    unresolved_identifiers: Vec<IdRef>,
}

impl Parser {
    /// The declarations parsed so far.
    pub closed spec fn decls(self) -> Seq<Declaration> {
        self.ast.declarations@
    }

    /// The queued unresolved references, oldest first.
    pub closed spec fn queue(self) -> Seq<IdRef> {
        self.unresolved_identifiers@
    }

    /// The parser's invariant: no sub-namespaces yet, unique identifiers,
    /// well-shaped function declarations, every queued reference valid, and
    /// every unresolved site queued.
    pub closed spec fn wf(self) -> bool {
        &&& self.ast.subnamespaces@.len() == 0
        &&& unique_idents(self.decls())
        &&& decls_site_shape(self.decls())
        &&& (forall|k: int|
            0 <= k < self.queue().len() ==> queue_entry_ok(self.decls(), #[trigger] self.queue()[k]))
        &&& (forall|i: int, site: IdSite|
            0 <= i < self.decls().len() && #[trigger] site_unresolved(self.decls()[i], site)
                ==> self.queue().contains(IdRef { decl_index: i as usize, site }))
    }

    /// An empty parser.
    pub fn new() -> (p: Parser)
        ensures
            p.wf(),
            p.decls().len() == 0,
            p.queue().len() == 0,
    {
        Parser { ast: GlobalNamespace::new(), unresolved_identifiers: Vec::new() }
    }
}

// ---------------------------------------------------------------------------
// Grammar helpers.
// ---------------------------------------------------------------------------

/// The primitive named by a type word, if any.
pub open spec fn prim_of_name(w: Seq<char>) -> Option<Primitive> {
    if w == "U1"@ {
        Some(Primitive::U1)
    } else if w == "U8"@ {
        Some(Primitive::U8)
    } else if w == "U16"@ {
        Some(Primitive::U16)
    } else if w == "U32"@ {
        Some(Primitive::U32)
    } else if w == "U64"@ {
        Some(Primitive::U64)
    } else if w == "U128"@ {
        Some(Primitive::U128)
    } else if w == "I8"@ {
        Some(Primitive::I8)
    } else if w == "I16"@ {
        Some(Primitive::I16)
    } else if w == "I32"@ {
        Some(Primitive::I32)
    } else if w == "I64"@ {
        Some(Primitive::I64)
    } else if w == "I128"@ {
        Some(Primitive::I128)
    } else if w == "Bool"@ {
        Some(Primitive::Bool)
    } else if w == "F16"@ {
        Some(Primitive::F16)
    } else if w == "F32"@ {
        Some(Primitive::F32)
    } else if w == "F64"@ {
        Some(Primitive::F64)
    } else if w == "F128"@ {
        Some(Primitive::F128)
    } else {
        None
    }
}

/// Match a type word against the primitive table.
fn prim_of_word(w: &String) -> (r: Option<Primitive>)
    ensures
        r == prim_of_name(w@),
{
    if *w == "U1".to_owned() {
        Some(Primitive::U1)
    } else if *w == "U8".to_owned() {
        Some(Primitive::U8)
    } else if *w == "U16".to_owned() {
        Some(Primitive::U16)
    } else if *w == "U32".to_owned() {
        Some(Primitive::U32)
    } else if *w == "U64".to_owned() {
        Some(Primitive::U64)
    } else if *w == "U128".to_owned() {
        Some(Primitive::U128)
    } else if *w == "I8".to_owned() {
        Some(Primitive::I8)
    } else if *w == "I16".to_owned() {
        Some(Primitive::I16)
    } else if *w == "I32".to_owned() {
        Some(Primitive::I32)
    } else if *w == "I64".to_owned() {
        Some(Primitive::I64)
    } else if *w == "I128".to_owned() {
        Some(Primitive::I128)
    } else if *w == "Bool".to_owned() {
        Some(Primitive::Bool)
    } else if *w == "F16".to_owned() {
        Some(Primitive::F16)
    } else if *w == "F32".to_owned() {
        Some(Primitive::F32)
    } else if *w == "F64".to_owned() {
        Some(Primitive::F64)
    } else if *w == "F128".to_owned() {
        Some(Primitive::F128)
    } else {
        None
    }
}

/// Whether a token kind ends an absent (inferred) type annotation.
pub open spec fn infers_type(k: SpecTokenKind) -> bool {
    ||| k is Comma
    ||| k is CloseParen
    ||| k is OpenBracket
    ||| k is CloseBracket
    ||| k is Semicolon
    ||| k is Do
}

} // verus!

verus! {

impl Parser {
    /// Parse an optional type: a `Type` token is matched against the
    /// primitive table or becomes an unresolved identifier in `scope`; a
    /// token that can follow an absent annotation yields `Inferred` and is
    /// not consumed; anything else is an error.
    pub fn parse_type(&self, scope: ScopeKind, tokenizer: &mut Tokenizer) -> (r: ParseResult<TypeKind>)
        requires
            old(tokenizer).wf(),
        ensures
            final(tokenizer).wf(),
            final(tokenizer).src() == old(tokenizer).src(),
            final(tokenizer).upcoming().len() <= old(tokenizer).upcoming().len(),
            ({
                let up = old(tokenizer).upcoming();
                let k0 = if up.len() > 0 {
                    up[0].kind
                } else {
                    SpecTokenKind::EOF
                };
                match k0 {
                    SpecTokenKind::Type(w) => {
                        &&& final(tokenizer).upcoming() == up.drop_first()
                        &&& (match prim_of_name(w) {
                            Some(p) => r == Ok::<TypeKind, ParseError>(TypeKind::Primitive(p)),
                            None => (match r {
                                Ok(TypeKind::Identifier(id)) => id@.name == w && id@.id_kind
                                    == (SpecIdKind::Unresolved {
                                    scope_used: scope@,
                                    scope_described: Seq::<Seq<char>>::empty(),
                                }),
                                _ => false,
                            }),
                        })
                    },
                    _ => {
                        if infers_type(k0) {
                            r == Ok::<TypeKind, ParseError>(TypeKind::Inferred) && final(tokenizer).upcoming() == up
                        } else {
                            r is Err && final(tokenizer).upcoming() == up
                        }
                    },
                }
            }),
            ({
                let up = old(tokenizer).upcoming();
                let eofl = old(tokenizer).eof_loc();
                match type_scan(up, 0, eofl) {
                    Ok((st, ni)) => (match r {
                        Ok(t) => type_matches_in(t, st, scope@) && final(tokenizer).upcoming()
                            == up.skip(ni),
                        Err(_) => false,
                    }),
                    Err(e) => (match r {
                        Ok(_) => false,
                        Err(pe) => pe.message@ == e.message && pe.location == e.location,
                    }),
                }
            }),
    {
        let ghost up = old(tokenizer).upcoming();
        let ghost eofl = old(tokenizer).eof_loc();
        let token = tokenizer.peek(0);
        proof {
            assert(token@ == tok(up, 0, eofl));
        }
        match &token.token_kind {
            TokenKind::Type(identifier) => {
                let kind = match prim_of_word(identifier) {
                    Some(p) => TypeKind::Primitive(p),
                    None => {
                        let described: Vec<String> = Vec::new();
                        proof {
                            assert(described@.map(|i: int, s: String| s@) =~= Seq::<
                                Seq<char>,
                            >::empty());
                        }
                        TypeKind::Identifier(
                            Box::new(
                                ScopedId {
                                    name: identifier.clone(),
                                    id_kind: IdKind::Unresolved {
                                        scope_used: scope,
                                        scope_described: described,
                                    },
                                },
                            ),
                        )
                    },
                };
                tokenizer.consume_peeked();
                proof {
                    assert(up.drop_first() =~= up.skip(1));
                }
                Ok(kind)
            },
            TokenKind::Comma | TokenKind::CloseParen | TokenKind::OpenBracket
                | TokenKind::CloseBracket | TokenKind::Semicolon | TokenKind::Do => {
                proof {
                    assert(up.skip(0) =~= up);
                }
                Ok(TypeKind::Inferred)
            },
            _ => {
                let expected: &[&str] = &["type"];
                proof {
                    assert(expected@.map(|i: int, s: &str| s@) =~= seq!["type"@]);
                }
                ParseError::unexpected(&token, expected)
            },
        }
    }

    /// Parse an expression followed by `;`: an identifier (left unresolved in
    /// `scope`), an integer, decimal, or boolean literal.
    pub fn parse_expression_semicolon(&self, scope: ScopeKind, tokenizer: &mut Tokenizer) -> (r:
        ParseResult<Expression>)
        requires
            old(tokenizer).wf(),
        ensures
            final(tokenizer).wf(),
            final(tokenizer).src() == old(tokenizer).src(),
            final(tokenizer).upcoming().len() <= old(tokenizer).upcoming().len(),
            ({
                let up = old(tokenizer).upcoming();
                let k0 = if up.len() > 0 {
                    up[0].kind
                } else {
                    SpecTokenKind::EOF
                };
                let k1 = if up.len() > 1 {
                    up[1].kind
                } else {
                    SpecTokenKind::EOF
                };
                match k0 {
                    SpecTokenKind::Id(w) => if k1 is Semicolon {
                        &&& final(tokenizer).upcoming() == up.skip(2)
                        &&& (match r {
                            Ok(Expression::Identifier(id)) => id@.name == w && id@.id_kind
                                == (SpecIdKind::Unresolved {
                                scope_used: scope@,
                                scope_described: Seq::<Seq<char>>::empty(),
                            }),
                            _ => false,
                        })
                    } else {
                        r is Err
                    },
                    SpecTokenKind::Int(w) => if k1 is Semicolon {
                        &&& final(tokenizer).upcoming() == up.skip(2)
                        &&& (match r {
                            Ok(Expression::Integer(s)) => s@ == w,
                            _ => false,
                        })
                    } else {
                        r is Err
                    },
                    SpecTokenKind::Dec(w) => if k1 is Semicolon {
                        &&& final(tokenizer).upcoming() == up.skip(2)
                        &&& (match r {
                            Ok(Expression::Decimal(s)) => s@ == w,
                            _ => false,
                        })
                    } else {
                        r is Err
                    },
                    SpecTokenKind::Bool(b) => if k1 is Semicolon {
                        &&& final(tokenizer).upcoming() == up.skip(2)
                        &&& r == Ok::<Expression, ParseError>(Expression::Bool(b))
                    } else {
                        r is Err
                    },
                    _ => r is Err,
                }
            }),
            ({
                let up = old(tokenizer).upcoming();
                let eofl = old(tokenizer).eof_loc();
                match expr_scan(up, 0, eofl) {
                    Ok((se, ni)) => (match r {
                        Ok(e) => expr_matches(e, se, scope@) && final(tokenizer).upcoming()
                            == up.skip(ni),
                        Err(_) => false,
                    }),
                    Err(e) => (match r {
                        Ok(_) => false,
                        Err(pe) => pe.message@ == e.message && pe.location == e.location,
                    }),
                }
            }),
    {
        let ghost up = old(tokenizer).upcoming();
        let ghost eofl = old(tokenizer).eof_loc();
        let token = tokenizer.next();
        proof {
            assert(token@ == tok(up, 0, eofl));
        }
        match token.token_kind {
            TokenKind::Id(identifier) => {
                let token2 = tokenizer.next();
                proof {
                    assert(token2@ == tok(up, 1, eofl));
                }
                match token2.token_kind {
                    TokenKind::Semicolon => {
                        proof {
                            assert(up.drop_first().drop_first() =~= up.skip(2));
                        }
                        let described: Vec<String> = Vec::new();
                        proof {
                            assert(described@.map(|i: int, s: String| s@) =~= Seq::<
                                Seq<char>,
                            >::empty());
                        }
                        Ok(
                            Expression::Identifier(
                                Box::new(
                                    ScopedId {
                                        name: identifier,
                                        id_kind: IdKind::Unresolved {
                                            scope_used: scope,
                                            scope_described: described,
                                        },
                                    },
                                ),
                            ),
                        )
                    },
                    _ => ParseError::not_implemented(&token2),
                }
            },
            TokenKind::Int(integer) => {
                let token2 = tokenizer.next();
                proof {
                    assert(token2@ == tok(up, 1, eofl));
                }
                match token2.token_kind {
                    TokenKind::Semicolon => {
                        proof {
                            assert(up.drop_first().drop_first() =~= up.skip(2));
                        }
                        Ok(Expression::Integer(integer))
                    },
                    _ => ParseError::not_implemented(&token2),
                }
            },
            TokenKind::Dec(decimal) => {
                let token2 = tokenizer.next();
                proof {
                    assert(token2@ == tok(up, 1, eofl));
                }
                match token2.token_kind {
                    TokenKind::Semicolon => {
                        proof {
                            assert(up.drop_first().drop_first() =~= up.skip(2));
                        }
                        Ok(Expression::Decimal(decimal))
                    },
                    _ => ParseError::not_implemented(&token2),
                }
            },
            TokenKind::Bool(boolean) => {
                let token2 = tokenizer.next();
                proof {
                    assert(token2@ == tok(up, 1, eofl));
                }
                match token2.token_kind {
                    TokenKind::Semicolon => {
                        proof {
                            assert(up.drop_first().drop_first() =~= up.skip(2));
                        }
                        Ok(Expression::Bool(boolean))
                    },
                    _ => ParseError::not_implemented(&token2),
                }
            },
            _ => ParseError::not_implemented(&token),
        }
    }

    /// Parse one parameter after its identifier: `: Type` with a primitive
    /// type. A missing or non-primitive parameter type is rejected.
    pub fn parse_argument(&self, identifier: String, tokenizer: &mut Tokenizer) -> (r: ParseResult<
        Argument,
    >)
        requires
            old(tokenizer).wf(),
        ensures
            final(tokenizer).wf(),
            final(tokenizer).src() == old(tokenizer).src(),
            final(tokenizer).upcoming().len() <= old(tokenizer).upcoming().len(),
            (match r {
                Ok(arg) => ({
                    let v = decl_value(arg.decl);
                    &&& v.public == true
                    &&& v.decl_keyword == DeclKeyword::Let
                    &&& v.decl_kind is EmptyDecl
                    &&& v.identifier@ == identifier@
                    &&& v.type_kind is Primitive
                }),
                Err(_) => true,
            }),
            ({
                let up = old(tokenizer).upcoming();
                let k0 = if up.len() > 0 {
                    up[0].kind
                } else {
                    SpecTokenKind::EOF
                };
                let k1 = if up.len() > 1 {
                    up[1].kind
                } else {
                    SpecTokenKind::EOF
                };
                match k0 {
                    SpecTokenKind::Colon => match k1 {
                        SpecTokenKind::Type(w) => match prim_of_name(w) {
                            Some(p) => {
                                &&& final(tokenizer).upcoming() == up.skip(2)
                                &&& (match r {
                                    Ok(arg) => decl_value(arg.decl).type_kind
                                        == TypeKind::Primitive(p) && decl_value(
                                        arg.decl,
                                    ).identifier@ == identifier@,
                                    Err(_) => false,
                                })
                            },
                            None => r is Err,
                        },
                        _ => r is Err,
                    },
                    _ => r is Err,
                }
            }),
            ({
                let up = old(tokenizer).upcoming();
                let eofl = old(tokenizer).eof_loc();
                match arg_scan(up, 0, eofl, identifier@) {
                    Ok((sa, ni)) => (match r {
                        Ok(arg) => arg_matches(arg, sa) && final(tokenizer).upcoming() == up.skip(
                            ni,
                        ),
                        Err(_) => false,
                    }),
                    Err(e) => (match r {
                        Ok(_) => false,
                        Err(pe) => pe.message@ == e.message && pe.location == e.location,
                    }),
                }
            }),
    {
        let ghost up = old(tokenizer).upcoming();
        let ghost eofl = old(tokenizer).eof_loc();
        let token = tokenizer.next();
        proof {
            assert(token@ == tok(up, 0, eofl));
        }
        match token.token_kind {
            TokenKind::Colon => {
                proof {
                    lemma_type_scan_shift(up, 1, 0, eofl);
                    assert(up.drop_first() =~= up.skip(1));
                }
                let kind = self.parse_type(ScopeKind::GlobalNamespace, tokenizer)?;
                match kind {
                    TypeKind::Primitive(_) => {
                        proof {
                            assert(up.drop_first().drop_first() =~= up.skip(2));
                            assert(up.skip(1).skip(1) =~= up.skip(2));
                        }
                        Ok(
                            Argument {
                                decl: Declaration::ValueDecl(
                                    Box::new(
                                        ValueDecl {
                                            public: true,
                                            decl_keyword: DeclKeyword::Let,
                                            identifier,
                                            type_kind: kind,
                                            decl_kind: DeclKind::EmptyDecl,
                                        },
                                    ),
                                ),
                            },
                        )
                    },
                    TypeKind::Identifier(_) => {
                        // Parameters of named types are not supported yet; the
                        // identifier cannot resolve against a scope that is
                        // still being built.
                        Err(
                            ParseError {
                                message: "Not implemented: non-primitive parameter types".to_owned(),
                                location: token.location,
                            },
                        )
                    },
                    _ => {
                        // A parameter must carry a type annotation.
                        let next_token = tokenizer.peek(0);
                        proof {
                            lemma_tok_shift(up, 1, 0, eofl);
                            assert(next_token@ == tok(up, 1, eofl));
                        }
                        let expected: &[&str] = &["type"];
                        proof {
                            assert(expected@.map(|i: int, s: &str| s@) =~= seq!["type"@]);
                        }
                        ParseError::unexpected(&next_token, expected)
                    },
                }
            },
            _ => {
                let expected: &[&str] = &[":"];
                proof {
                    assert(expected@.map(|i: int, s: &str| s@) =~= seq![":"@]);
                }
                ParseError::unexpected(&token, expected)
            },
        }
    }
}

} // verus!

verus! {

/// A freshly parsed declaration destined for root slot `slot`: its function
/// parameters (if any) are primitive-typed and uniquely named, its return
/// type is not itself a function type, and every identifier site it holds is
/// unresolved, unqualified, and recorded in the root scope or in the
/// declaration's own function scope.
pub open spec fn parsed_decl_ok(d: Declaration, slot: int) -> bool {
    &&& (match decl_value(d).type_kind {
        TypeKind::FuncType(f) => {
            &&& (forall|j: int|
                0 <= j < f.arguments@.len() ==> decl_value(
                    (#[trigger] f.arguments@[j]).decl,
                ).type_kind is Primitive)
            &&& !(*f.return_type is FuncType)
            &&& unique_idents(func_args(*f))
        },
        _ => true,
    })
    &&& (forall|site: IdSite|
        match #[trigger] site_id(d, site) {
            Some(id) => (match id.id_kind@ {
                SpecIdKind::Unresolved { scope_used, scope_described } => {
                    &&& scope_described.len() == 0
                    &&& parser_scope(scope_used, slot)
                    &&& (scope_used is Function ==> decl_value(d).type_kind is FuncType)
                },
                SpecIdKind::Resolved { .. } => false,
            }),
            None => true,
        })
}

impl Parser {
    /// Parse a function body after the return type: `do expr;` (block bodies
    /// are not implemented yet), producing the function declaration for root
    /// slot `slot`.
    pub fn parse_func_body(
        &self,
        public: bool,
        decl_keyword: DeclKeyword,
        identifier: String,
        arguments: Vec<Argument>,
        return_type: TypeKind,
        slot: usize,
        tokenizer: &mut Tokenizer,
    ) -> (r: ParseResult<Declaration>)
        requires
            old(tokenizer).wf(),
            !(return_type is FuncType),
            !(return_type is Identifier),
            wf_params(arguments@),
            unique_idents(arguments@.map(|i: int, a: Argument| a.decl)),
        ensures
            final(tokenizer).wf(),
            final(tokenizer).src() == old(tokenizer).src(),
            final(tokenizer).upcoming().len() <= old(tokenizer).upcoming().len(),
            (match r {
                Ok(d) => ({
                    let v = decl_value(d);
                    &&& v.public == public
                    &&& v.decl_keyword == decl_keyword
                    &&& v.identifier@ == identifier@
                    &&& v.decl_kind is FuncDecl
                    &&& (match v.type_kind {
                        TypeKind::FuncType(f) => f.arguments == arguments && *f.return_type
                            == return_type,
                        _ => false,
                    })
                    &&& parsed_decl_ok(d, slot as int)
                }),
                Err(_) => true,
            }),
            ({
                let up = old(tokenizer).upcoming();
                let eofl = old(tokenizer).eof_loc();
                match func_body_scan(
                    public,
                    decl_keyword,
                    identifier@,
                    args_spec(arguments@),
                    type_spec_of(return_type),
                    up,
                    0,
                    eofl,
                ) {
                    Ok((sd, ni)) => (match r {
                        Ok(d) => decl_matches(d, sd, slot as int) && final(tokenizer).upcoming()
                            == up.skip(ni),
                        Err(_) => false,
                    }),
                    Err(e) => (match r {
                        Ok(_) => false,
                        Err(pe) => pe.message@ == e.message && pe.location == e.location,
                    }),
                }
            }),
    {
        let ghost up = old(tokenizer).upcoming();
        let ghost eofl = old(tokenizer).eof_loc();
        let value_decl_type = TypeKind::FuncType(
            Box::new(FuncType { arguments, return_type: Box::new(return_type) }),
        );
        let token = tokenizer.next();
        proof {
            assert(token@ == tok(up, 0, eofl));
        }
        let expression = match token.token_kind {
            TokenKind::OpenBracket => {
                proof {
                    assert(up.drop_first() =~= up.skip(1));
                    lemma_tok_shift(up, 1, 0, eofl);
                }
                return self.parse_block(tokenizer);
            },
            TokenKind::Do => {
                let path: Vec<usize> = Vec::new();
                proof {
                    assert(up.drop_first() =~= up.skip(1));
                    lemma_expr_scan_shift(up, 1, 0, eofl);
                    lemma_expr_scan_bounds(up.skip(1), 0, eofl);
                }
                self.parse_expression_semicolon(ScopeKind::Function(path, slot), tokenizer)?
            },
            _ => {
                let expected: &[&str] = &["{", "do"];
                proof {
                    assert(expected@.map(|i: int, s: &str| s@) =~= seq!["{"@, "do"@]);
                }
                return ParseError::unexpected(&token, expected);
            },
        };
        let d = Declaration::ValueDecl(
            Box::new(
                ValueDecl {
                    public,
                    decl_keyword,
                    identifier,
                    type_kind: value_decl_type,
                    decl_kind: DeclKind::FuncDecl(Box::new(expression)),
                },
            ),
        );
        proof {
            assert forall|site: IdSite|
                match #[trigger] site_id(d, site) {
                    Some(id) => (match id.id_kind@ {
                        SpecIdKind::Unresolved { scope_used, scope_described } => {
                            &&& scope_described.len() == 0
                            &&& parser_scope(scope_used, slot as int)
                            &&& (scope_used is Function ==> decl_value(d).type_kind is FuncType)
                        },
                        SpecIdKind::Resolved { .. } => false,
                    }),
                    None => true,
                } by {
                match site {
                    IdSite::DeclType => {
                        assert(site_id(d, site) is None);
                    },
                    IdSite::ReturnType => {
                        assert(site_id(d, site) is None);
                    },
                    IdSite::DeclExpr => {},
                }
            }
            let se_ni = expr_scan(up, 1, eofl);
            match func_body_scan(
                public,
                decl_keyword,
                identifier@,
                args_spec(arguments@),
                type_spec_of(return_type),
                up,
                0,
                eofl,
            ) {
                Ok((sd, ni)) => {
                    assert(up.skip(1).skip(ni - 1) =~= up.skip(ni));
                    assert(decl_matches(d, sd, slot as int)) by {
                        let v = decl_value(d);
                        match v.type_kind {
                            TypeKind::FuncType(f) => {
                                assert forall|j: int|
                                    0 <= j < args_spec(arguments@).len() implies arg_matches(
                                    #[trigger] f.arguments@[j],
                                    args_spec(arguments@)[j],
                                ) by {
                                    assert(arg_matches(arguments@[j], arg_spec(arguments@[j])));
                                }
                            },
                            _ => {},
                        }
                    }
                },
                Err(_) => {},
            }
        }
        Ok(d)
    }

    /// Block bodies are reserved; parsing one is not implemented.
    pub fn parse_block(&self, tokenizer: &mut Tokenizer) -> (r: ParseResult<Declaration>)
        requires
            old(tokenizer).wf(),
        ensures
            final(tokenizer).wf(),
            final(tokenizer).src() == old(tokenizer).src(),
            final(tokenizer).upcoming().len() <= old(tokenizer).upcoming().len(),
            r is Err,
            (match r {
                Err(pe) => ({
                    let t = tok(old(tokenizer).upcoming(), 0, old(tokenizer).eof_loc());
                    pe.message@ == not_implemented_text(t.kind, t.location) && pe.location
                        == t.location
                }),
                Ok(_) => false,
            }),
    {
        let ghost up = old(tokenizer).upcoming();
        let ghost eofl = old(tokenizer).eof_loc();
        let token = tokenizer.next();
        proof {
            assert(token@ == tok(up, 0, eofl));
        }
        ParseError::not_implemented(&token)
    }

    /// Parse a function declaration after its opening parenthesis: the
    /// parameter list, `-> Type`, and the body.
    pub fn parse_func_decl(
        &self,
        public: bool,
        decl_keyword: DeclKeyword,
        identifier: String,
        slot: usize,
        tokenizer: &mut Tokenizer,
    ) -> (r: ParseResult<Declaration>)
        requires
            old(tokenizer).wf(),
        ensures
            final(tokenizer).wf(),
            final(tokenizer).src() == old(tokenizer).src(),
            final(tokenizer).upcoming().len() <= old(tokenizer).upcoming().len(),
            (match r {
                Ok(d) => ({
                    let v = decl_value(d);
                    &&& v.public == public
                    &&& v.decl_keyword == decl_keyword
                    &&& v.identifier@ == identifier@
                    &&& v.decl_kind is FuncDecl
                    &&& v.type_kind is FuncType
                    &&& parsed_decl_ok(d, slot as int)
                }),
                Err(_) => true,
            }),
    {
        let mut arguments: Vec<Argument> = Vec::new();
        loop
            invariant
                tokenizer.wf(),
                tokenizer.src() == old(tokenizer).src(),
                tokenizer.upcoming().len() <= old(tokenizer).upcoming().len(),
                wf_params(arguments@),
                unique_idents(arguments@.map(|i: int, a: Argument| a.decl)),
            decreases tokenizer.upcoming().len(),
        {
            let token = tokenizer.next();
            match token.token_kind {
                TokenKind::Id(arg_id) => {
                    // Reject a parameter that shadows an earlier one: within
                    // one function scope, parameter identifiers are unique.
                    let mut j: usize = 0;
                    let mut duplicate = false;
                    while j < arguments.len()
                        invariant
                            j <= arguments@.len(),
                            duplicate == (exists|x: int|
                                0 <= x < j && decl_ident(
                                    (#[trigger] arguments@[x]).decl,
                                ) == arg_id@),
                        decreases arguments@.len() - j,
                    {
                        let Declaration::ValueDecl(v) = &arguments[j].decl;
                        if v.identifier == arg_id {
                            duplicate = true;
                        }
                        j = j + 1;
                    }
                    if duplicate {
                        let site = Token {
                            token_kind: TokenKind::Id(arg_id),
                            location: token.location,
                        };
                        return ParseError::message(&site, "duplicate parameter identifier");
                    }
                    let parameter = self.parse_argument(arg_id, tokenizer)?;
                    proof {
                        let ghost args2 = arguments@.push(parameter);
                        let f0 = |i: int, a: Argument| a.decl;
                        assert(args2.map(f0) =~= arguments@.map(f0).push(parameter.decl));
                        assert forall|i: int, k: int|
                            0 <= i < k < args2.map(f0).len() implies decl_ident(
                            #[trigger] args2.map(f0)[i],
                        ) != decl_ident(#[trigger] args2.map(f0)[k]) by {
                            if k == args2.map(f0).len() - 1 {
                                assert(decl_ident(arguments@.map(f0)[i]) == decl_ident(
                                    arguments@[i].decl,
                                ));
                            }
                        }
                        assert(arg_matches(parameter, arg_spec(parameter)));
                        assert forall|x: int| 0 <= x < args2.len() implies arg_matches(
                            #[trigger] args2[x],
                            arg_spec(args2[x]),
                        ) by {
                            if x < arguments@.len() {
                                assert(arg_matches(arguments@[x], arg_spec(arguments@[x])));
                            }
                        }
                    }
                    arguments.push(parameter);
                },
                TokenKind::Comma => {
                    // A separator between parameters.
                },
                TokenKind::CloseParen => {
                    let token2 = tokenizer.next();
                    match token2.token_kind {
                        TokenKind::Arrow => {
                            let return_type = self.parse_type(
                                ScopeKind::GlobalNamespace,
                                tokenizer,
                            )?;
                            match return_type {
                                TypeKind::Identifier(_) => {
                                    // A named return type cannot resolve against
                                    // a scope that is still being built.
                                    return Err(
                                        ParseError {
                                            message: "Not implemented: non-primitive return types".to_owned(),
                                            location: token2.location,
                                        },
                                    );
                                },
                                _ => {},
                            }
                            return self.parse_func_body(
                                public,
                                decl_keyword,
                                identifier,
                                arguments,
                                return_type,
                                slot,
                                tokenizer,
                            );
                        },
                        _ => {
                            let expected: &[&str] = &["->"];
                            return ParseError::unexpected(&token2, expected);
                        },
                    }
                },
                _ => {
                    let expected: &[&str] = &["identifier"];
                    return ParseError::unexpected(&token, expected);
                },
            }
        }
    }
}

} // verus!

verus! {

/// Whether the identifier at a site of a declaration is present and
/// unresolved.
fn site_is_unresolved(d: &Declaration, site: IdSite) -> (r: bool)
    ensures
        r == site_unresolved(*d, site),
{
    let Declaration::ValueDecl(v) = d;
    match site {
        IdSite::DeclType => match &v.type_kind {
            TypeKind::Identifier(id) => matches!(id.id_kind, IdKind::Unresolved { .. }),
            _ => false,
        },
        IdSite::ReturnType => match &v.type_kind {
            TypeKind::FuncType(f) => match &*f.return_type {
                TypeKind::Identifier(id) => matches!(id.id_kind, IdKind::Unresolved { .. }),
                _ => false,
            },
            _ => false,
        },
        IdSite::DeclExpr => match &v.decl_kind {
            DeclKind::AssignDecl(e) => match &**e {
                Expression::Identifier(id) => matches!(id.id_kind, IdKind::Unresolved { .. }),
                _ => false,
            },
            DeclKind::FuncDecl(e) => match &**e {
                Expression::Identifier(id) => matches!(id.id_kind, IdKind::Unresolved { .. }),
                _ => false,
            },
            DeclKind::EmptyDecl => false,
        },
    }
}

proof fn lemma_contains_push<T>(s: Seq<T>, x: T, y: T)
    ensures
        s.push(x).contains(x),
        s.contains(y) ==> s.push(x).contains(y),
{
    assert(s.push(x)[s.len() as int] == x);
    if s.contains(y) {
        let i = choose|i: int| 0 <= i < s.len() && s[i] == y;
        assert(s.push(x)[i] == y);
    }
}

impl Parser {
    /// Parse one top-level declaration after its keyword: the identifier, an
    /// optional `: Type`, then either `= expr ;` or a function declaration.
    pub fn parse_top_declaration(
        &self,
        public: bool,
        decl_keyword: DeclKeyword,
        slot: usize,
        tokenizer: &mut Tokenizer,
    ) -> (r: ParseResult<Declaration>)
        requires
            old(tokenizer).wf(),
        ensures
            final(tokenizer).wf(),
            final(tokenizer).src() == old(tokenizer).src(),
            final(tokenizer).upcoming().len() <= old(tokenizer).upcoming().len(),
            (match r {
                Ok(d) => ({
                    let v = decl_value(d);
                    &&& v.public == public
                    &&& v.decl_keyword == decl_keyword
                    &&& (v.decl_kind is AssignDecl || v.decl_kind is FuncDecl)
                    &&& parsed_decl_ok(d, slot as int)
                }),
                Err(_) => true,
            }),
    {
        let token = tokenizer.next();
        match token.token_kind {
            TokenKind::Id(identifier) => {
                let mut type_kind = TypeKind::Inferred;
                let mut token2 = tokenizer.next();
                if let TokenKind::Colon = token2.token_kind {
                    type_kind = self.parse_type(ScopeKind::GlobalNamespace, tokenizer)?;
                    token2 = tokenizer.next();
                }
                match token2.token_kind {
                    TokenKind::Equal => {
                        let expression = self.parse_expression_semicolon(
                            ScopeKind::GlobalNamespace,
                            tokenizer,
                        )?;
                        let d = Declaration::ValueDecl(
                            Box::new(
                                ValueDecl {
                                    public,
                                    decl_keyword,
                                    identifier,
                                    type_kind,
                                    decl_kind: DeclKind::AssignDecl(Box::new(expression)),
                                },
                            ),
                        );
                        proof {
                            assert forall|site: IdSite|
                                match #[trigger] site_id(d, site) {
                                    Some(id) => (match id.id_kind@ {
                                        SpecIdKind::Unresolved { scope_used, scope_described } => {
                                            &&& scope_described.len() == 0
                                            &&& parser_scope(scope_used, slot as int)
                                            &&& (scope_used is Function ==> decl_value(
                                                d,
                                            ).type_kind is FuncType)
                                        },
                                        SpecIdKind::Resolved { .. } => false,
                                    }),
                                    None => true,
                                } by {
                                match site {
                                    IdSite::DeclType => {},
                                    IdSite::ReturnType => {
                                        assert(site_id(d, site) is None);
                                    },
                                    IdSite::DeclExpr => {},
                                }
                            }
                        }
                        Ok(d)
                    },
                    TokenKind::OpenParen => {
                        match type_kind {
                            TypeKind::Identifier(_) => {
                                // The annotation was a named type, which a
                                // function declaration does not take.
                                ParseError::unexpected(&token2, &["="])
                            },
                            _ => self.parse_func_decl(
                                public,
                                decl_keyword,
                                identifier,
                                slot,
                                tokenizer,
                            ),
                        }
                    },
                    _ => ParseError::unexpected(&token2, &["=", "("]),
                }
            },
            TokenKind::OpenBracket => ParseError::not_implemented(&token),
            _ => ParseError::unexpected(&token, &["identifier"]),
        }
    }

    /// Parse a public top-level declaration after `pub`: the declaration
    /// keyword must follow.
    pub fn parse_top_declaration_public(&self, slot: usize, tokenizer: &mut Tokenizer) -> (r:
        ParseResult<Declaration>)
        requires
            old(tokenizer).wf(),
        ensures
            final(tokenizer).wf(),
            final(tokenizer).src() == old(tokenizer).src(),
            final(tokenizer).upcoming().len() <= old(tokenizer).upcoming().len(),
            (match r {
                Ok(d) => decl_value(d).public == true && (decl_value(d).decl_kind is AssignDecl
                    || decl_value(d).decl_kind is FuncDecl) && parsed_decl_ok(d, slot as int),
                Err(_) => true,
            }),
    {
        let token = tokenizer.next();
        match token.token_kind {
            TokenKind::Var => self.parse_top_declaration(true, DeclKeyword::Var, slot, tokenizer),
            TokenKind::Let => self.parse_top_declaration(true, DeclKeyword::Let, slot, tokenizer),
            TokenKind::Def => self.parse_top_declaration(true, DeclKeyword::Def, slot, tokenizer),
            _ => ParseError::unexpected(&token, &["var", "let", "def"]),
        }
    }

    /// Append a parsed declaration to the root namespace, rejecting a
    /// duplicate identifier, and queue its unresolved identifier sites.
    fn push_decl(&mut self, declaration: Declaration, at: &Token) -> (r: ParseResult<()>)
        requires
            old(self).wf(),
            parsed_decl_ok(declaration, old(self).decls().len() as int),
        ensures
            final(self).wf(),
            r is Ok ==> final(self).decls() == old(self).decls().push(declaration),
    {
        if !self.ast.is_unique_identifier(&declaration) {
            let Declaration::ValueDecl(v) = &declaration;
            let mut message = "Duplicate identifier `".to_owned();
            message.append(v.identifier.as_str());
            message.append("`");
            return Err(ParseError { message, location: at.location });
        }
        proof {
            crate::ast::lemma_idents_contain_pub(self.ast.declarations@, decl_ident(declaration));
        }
        let slot = self.ast.declarations.len();
        let t1 = site_is_unresolved(&declaration, IdSite::DeclType);
        let t2 = site_is_unresolved(&declaration, IdSite::ReturnType);
        let t3 = site_is_unresolved(&declaration, IdSite::DeclExpr);
        let ghost d = declaration;
        let ghost decls2 = old(self).decls().push(declaration);
        self.ast.declarations.push(declaration);
        let ghost q0 = self.unresolved_identifiers@;
        if t1 {
            let ghost qpre = self.unresolved_identifiers@;
            self.unresolved_identifiers.push(IdRef { decl_index: slot, site: IdSite::DeclType });
            proof {
                assert forall|y: IdRef| qpre.contains(y) implies self.unresolved_identifiers@.contains(
                    y,
                ) by {
                    lemma_contains_push(qpre, IdRef { decl_index: slot, site: IdSite::DeclType }, y);
                }
                lemma_contains_push(
                    qpre,
                    IdRef { decl_index: slot, site: IdSite::DeclType },
                    IdRef { decl_index: slot, site: IdSite::DeclType },
                );
            }
        }
        if t2 {
            let ghost qpre = self.unresolved_identifiers@;
            self.unresolved_identifiers.push(IdRef { decl_index: slot, site: IdSite::ReturnType });
            proof {
                assert forall|y: IdRef| qpre.contains(y) implies self.unresolved_identifiers@.contains(
                    y,
                ) by {
                    lemma_contains_push(
                        qpre,
                        IdRef { decl_index: slot, site: IdSite::ReturnType },
                        y,
                    );
                }
                lemma_contains_push(
                    qpre,
                    IdRef { decl_index: slot, site: IdSite::ReturnType },
                    IdRef { decl_index: slot, site: IdSite::ReturnType },
                );
            }
        }
        if t3 {
            let ghost qpre = self.unresolved_identifiers@;
            self.unresolved_identifiers.push(IdRef { decl_index: slot, site: IdSite::DeclExpr });
            proof {
                assert forall|y: IdRef| qpre.contains(y) implies self.unresolved_identifiers@.contains(
                    y,
                ) by {
                    lemma_contains_push(qpre, IdRef { decl_index: slot, site: IdSite::DeclExpr }, y);
                }
                lemma_contains_push(
                    qpre,
                    IdRef { decl_index: slot, site: IdSite::DeclExpr },
                    IdRef { decl_index: slot, site: IdSite::DeclExpr },
                );
            }
        }
        proof {
            let decls = self.decls();
            let q = self.queue();
            assert(decls =~= decls2);
            assert(decls[slot as int] == d);
            assert forall|i: int, j: int|
                0 <= i < j < decls.len() implies decl_ident(#[trigger] decls[i]) != decl_ident(
                #[trigger] decls[j],
            ) by {
                if j == slot as int {
                    assert(decl_ident(decls[i]) == crate::ast::idents_of(
                        old(self).decls(),
                    )[i]);
                }
            }
            assert forall|k: int| 0 <= k < q.len() implies queue_entry_ok(
                decls,
                #[trigger] q[k],
            ) by {
                if k < q0.len() {
                    assert(q0 =~= old(self).queue());
                    assert(q[k] == q0[k]);
                    assert(old(self).queue()[k] == q0[k]);
                    assert(queue_entry_ok(old(self).decls(), q0[k]));
                    assert(decls[q0[k].decl_index as int] == old(self).decls()[q0[k].decl_index as int]);
                } else {
                    assert(q[k].decl_index == slot);
                }
            }
            assert forall|i: int, site: IdSite|
                0 <= i < decls.len() && #[trigger] site_unresolved(decls[i], site) implies q.contains(
                IdRef { decl_index: i as usize, site },
            ) by {
                if i < slot as int {
                    assert(site_unresolved(old(self).decls()[i], site));
                    assert(old(self).queue().contains(IdRef { decl_index: i as usize, site }));
                    let w = choose|w: int|
                        0 <= w < old(self).queue().len() && old(self).queue()[w] == IdRef {
                            decl_index: i as usize,
                            site,
                        };
                    assert(q[w] == IdRef { decl_index: i as usize, site });
                } else {
                    match site {
                        IdSite::DeclType => {
                            assert(t1);
                        },
                        IdSite::ReturnType => {
                            assert(t2);
                        },
                        IdSite::DeclExpr => {
                            assert(t3);
                        },
                    }
                }
            }
        }
        Ok(())
    }

    /// Consume tokens until EOF, parsing top-level declarations into the
    /// root namespace; each parsed declaration's identifier must be new.
    pub fn parse(&mut self, tokenizer: Tokenizer) -> (r: ParseResult<()>)
        requires
            old(self).wf(),
            tokenizer.wf(),
        ensures
            final(self).wf(),
            r is Ok ==> unique_idents(final(self).decls()),
    {
        let mut tokenizer = tokenizer;
        loop
            invariant
                self.wf(),
                tokenizer.wf(),
            decreases tokenizer.upcoming().len(),
        {
            let ghost before = tokenizer.upcoming().len();
            let token = tokenizer.next();
            match token.token_kind {
                TokenKind::Pub => {
                    let slot = self.ast.declarations.len();
                    let declaration = self.parse_top_declaration_public(slot, &mut tokenizer)?;
                    self.push_decl(declaration, &token)?;
                },
                TokenKind::Var => {
                    let slot = self.ast.declarations.len();
                    let declaration = self.parse_top_declaration(
                        false,
                        DeclKeyword::Var,
                        slot,
                        &mut tokenizer,
                    )?;
                    self.push_decl(declaration, &token)?;
                },
                TokenKind::Let => {
                    let slot = self.ast.declarations.len();
                    let declaration = self.parse_top_declaration(
                        false,
                        DeclKeyword::Let,
                        slot,
                        &mut tokenizer,
                    )?;
                    self.push_decl(declaration, &token)?;
                },
                TokenKind::Def => {
                    let slot = self.ast.declarations.len();
                    let declaration = self.parse_top_declaration(
                        false,
                        DeclKeyword::Def,
                        slot,
                        &mut tokenizer,
                    )?;
                    self.push_decl(declaration, &token)?;
                },
                TokenKind::EOF => {
                    return Ok(());
                },
                _ => {
                    return ParseError::not_implemented(&token);
                },
            }
        }
    }
}

} // verus!

verus! {

// ---------------------------------------------------------------------------
// Name resolution.
// ---------------------------------------------------------------------------

/// A fatal resolution error.
#[derive(Debug)]
pub struct ResolveError {
    pub message: String,
}

/// The message of a failed resolution.
pub open spec fn unresolved_text(name: Seq<char>) -> Seq<char> {
    "could not resolve identifier `"@ + name + "`"@
}

/// Whether an identifier used in `scope_used` can be bound somewhere on its
/// lexical parent chain: a root-scope use against the root declarations; a
/// function-scope use against that function's parameters, then the root.
pub open spec fn resolvable(decls: Seq<Declaration>, name: Seq<char>, scope_used: SpecScopeKind) -> bool {
    match scope_used {
        SpecScopeKind::GlobalNamespace => decls_contain(decls, name),
        SpecScopeKind::Function(path, fi) => {
            &&& fi < decls.len()
            &&& (match decl_value(decls[fi as int]).type_kind {
                TypeKind::FuncType(f) => decls_contain(func_args(*f), name) || decls_contain(
                    decls,
                    name,
                ),
                _ => false,
            })
        },
        SpecScopeKind::SubNamespace(_) => false,
    }
}

/// Whether `k` is the binding the resolver must produce for `name` used in
/// `scope_used`: the first matching parameter of the function scope, else
/// the first matching root declaration; the first match wins and the
/// declaration lies on the lexical parent chain of `scope_used`.
pub open spec fn binds_to(
    decls: Seq<Declaration>,
    name: Seq<char>,
    scope_used: SpecScopeKind,
    k: SpecIdKind,
) -> bool {
    match scope_used {
        SpecScopeKind::GlobalNamespace => (match k {
            SpecIdKind::Resolved { declaration, scope } => scope
                == SpecScopeKind::GlobalNamespace && is_first_match(
                decls,
                name,
                declaration as int,
            ),
            _ => false,
        }),
        SpecScopeKind::Function(path, fi) => fi < decls.len() && (match decl_value(
            decls[fi as int],
        ).type_kind {
            TypeKind::FuncType(f) => {
                if decls_contain(func_args(*f), name) {
                    match k {
                        SpecIdKind::Resolved { declaration, scope } => scope
                            == SpecScopeKind::Function(path, fi) && is_first_match(
                            func_args(*f),
                            name,
                            declaration as int,
                        ),
                        _ => false,
                    }
                } else {
                    match k {
                        SpecIdKind::Resolved { declaration, scope } => scope
                            == SpecScopeKind::GlobalNamespace && is_first_match(
                            decls,
                            name,
                            declaration as int,
                        ),
                        _ => false,
                    }
                }
            },
            _ => false,
        }),
        SpecScopeKind::SubNamespace(_) => false,
    }
}

/// How one site relates across resolution: absent sites stay absent; an
/// identifier keeps its name; its binding is unchanged, or was unresolved
/// and now carries the binding the chain walk prescribes over the original
/// declarations.
pub open spec fn site_rel(orig: Seq<Declaration>, cur: Seq<Declaration>, i: int, site: IdSite) -> bool {
    match site_id(orig[i], site) {
        Some(ido) => (match site_id(cur[i], site) {
            Some(idc) => idc.name@ == ido.name@ && (idc.id_kind@ == ido.id_kind@ || (match ido.id_kind@ {
                SpecIdKind::Unresolved { scope_used, .. } => resolvable(orig, ido.name@, scope_used)
                    && binds_to(orig, ido.name@, scope_used, idc.id_kind@),
                _ => false,
            })),
            None => false,
        }),
        None => site_id(cur[i], site) is None,
    }
}

/// An expression is untouched by resolution: an identifier keeps its name
/// (only its binding may change), and anything else stays the very value it
/// was.
pub open spec fn expr_preserved(ea: Expression, eb: Expression) -> bool {
    match ea {
        Expression::Identifier(ia) => (match eb {
            Expression::Identifier(ib) => ib.name == ia.name,
            _ => false,
        }),
        _ => eb == ea,
    }
}

/// The declarations agree on everything resolution leaves alone: visibility,
/// keyword, identifier, function parameters, every type annotation and
/// return type (a named one keeps its name), and the value or body
/// expression (a literal stays that literal; an identifier keeps its name).
pub open spec fn same_skeleton(a: Declaration, b: Declaration) -> bool {
    let va = decl_value(a);
    let vb = decl_value(b);
    &&& vb.public == va.public
    &&& vb.decl_keyword == va.decl_keyword
    &&& vb.identifier == va.identifier
    &&& (match va.type_kind {
        TypeKind::Identifier(ia) => (match vb.type_kind {
            TypeKind::Identifier(ib) => ib.name == ia.name,
            _ => false,
        }),
        TypeKind::FuncType(fa) => (match vb.type_kind {
            TypeKind::FuncType(fb) => fb.arguments == fa.arguments && (match *fa.return_type {
                TypeKind::Identifier(ra) => (match *fb.return_type {
                    TypeKind::Identifier(rb) => rb.name == ra.name,
                    _ => false,
                }),
                _ => *fb.return_type == *fa.return_type,
            }),
            _ => false,
        }),
        _ => vb.type_kind == va.type_kind,
    })
    &&& (match va.decl_kind {
        DeclKind::AssignDecl(ea) => (match vb.decl_kind {
            DeclKind::AssignDecl(eb) => expr_preserved(*ea, *eb),
            _ => false,
        }),
        DeclKind::FuncDecl(ea) => (match vb.decl_kind {
            DeclKind::FuncDecl(eb) => expr_preserved(*ea, *eb),
            _ => false,
        }),
        DeclKind::EmptyDecl => vb.decl_kind is EmptyDecl,
    })
}


} // verus!

verus! {

/// Rebuild a declaration with the identifier at `site` rewritten to carry
/// `new_kind`; everything else is kept as it was.
fn set_site_id(d: Declaration, site: IdSite, new_kind: IdKind) -> (r: Declaration)
    requires
        site_id(d, site) is Some,
    ensures
        same_skeleton(d, r),
        decl_value(r).type_kind is FuncType <==> decl_value(d).type_kind is FuncType,
        (match site_id(r, site) {
            Some(idc) => idc.name == site_id(d, site)->Some_0.name && idc.id_kind == new_kind,
            None => false,
        }),
        forall|other: IdSite| other != site ==> #[trigger] site_id(r, other) == site_id(d, other),
        site != IdSite::DeclExpr ==> decl_value(r).decl_kind == decl_value(d).decl_kind,
        site != IdSite::DeclType && site != IdSite::ReturnType ==> decl_value(r).type_kind
            == decl_value(d).type_kind,
        (match decl_value(d).type_kind {
            TypeKind::FuncType(fd) => (match decl_value(r).type_kind {
                TypeKind::FuncType(fr) => (*fr.return_type is FuncType <==> *fd.return_type
                    is FuncType) && (forall|j: int|
                    0 <= j < fr.arguments@.len() ==> (#[trigger] fr.arguments@[j])
                        == fd.arguments@[j]),
                _ => false,
            }),
            _ => true,
        }),
    {
    let Declaration::ValueDecl(vb) = d;
    let ValueDecl { public, decl_keyword, identifier, type_kind, decl_kind } = *vb;
    match site {
        IdSite::DeclType => {
            match type_kind {
                TypeKind::Identifier(idb) => {
                    let ScopedId { name, id_kind: _ } = *idb;
                    Declaration::ValueDecl(
                        Box::new(
                            ValueDecl {
                                public,
                                decl_keyword,
                                identifier,
                                type_kind: TypeKind::Identifier(
                                    Box::new(ScopedId { name, id_kind: new_kind }),
                                ),
                                decl_kind,
                            },
                        ),
                    )
                },
                _ => vstd::pervasive::unreached(),
            }
        },
        IdSite::ReturnType => {
            match type_kind {
                TypeKind::FuncType(fb) => {
                    let FuncType { arguments, return_type } = *fb;
                    match *return_type {
                        TypeKind::Identifier(idb) => {
                            let ScopedId { name, id_kind: _ } = *idb;
                            Declaration::ValueDecl(
                                Box::new(
                                    ValueDecl {
                                        public,
                                        decl_keyword,
                                        identifier,
                                        type_kind: TypeKind::FuncType(
                                            Box::new(
                                                FuncType {
                                                    arguments,
                                                    return_type: Box::new(
                                                        TypeKind::Identifier(
                                                            Box::new(
                                                                ScopedId { name, id_kind: new_kind },
                                                            ),
                                                        ),
                                                    ),
                                                },
                                            ),
                                        ),
                                        decl_kind,
                                    },
                                ),
                            )
                        },
                        _ => vstd::pervasive::unreached(),
                    }
                },
                _ => vstd::pervasive::unreached(),
            }
        },
        IdSite::DeclExpr => {
            match decl_kind {
                DeclKind::AssignDecl(eb) => {
                    match *eb {
                        Expression::Identifier(idb) => {
                            let ScopedId { name, id_kind: _ } = *idb;
                            Declaration::ValueDecl(
                                Box::new(
                                    ValueDecl {
                                        public,
                                        decl_keyword,
                                        identifier,
                                        type_kind,
                                        decl_kind: DeclKind::AssignDecl(
                                            Box::new(
                                                Expression::Identifier(
                                                    Box::new(
                                                        ScopedId { name, id_kind: new_kind },
                                                    ),
                                                ),
                                            ),
                                        ),
                                    },
                                ),
                            )
                        },
                        _ => vstd::pervasive::unreached(),
                    }
                },
                DeclKind::FuncDecl(eb) => {
                    match *eb {
                        Expression::Identifier(idb) => {
                            let ScopedId { name, id_kind: _ } = *idb;
                            Declaration::ValueDecl(
                                Box::new(
                                    ValueDecl {
                                        public,
                                        decl_keyword,
                                        identifier,
                                        type_kind,
                                        decl_kind: DeclKind::FuncDecl(
                                            Box::new(
                                                Expression::Identifier(
                                                    Box::new(
                                                        ScopedId { name, id_kind: new_kind },
                                                    ),
                                                ),
                                            ),
                                        ),
                                    },
                                ),
                            )
                        },
                        _ => vstd::pervasive::unreached(),
                    }
                },
                DeclKind::EmptyDecl => vstd::pervasive::unreached(),
            }
        },
    }
}

} // verus!

verus! {

/// Read the identifier at a site: its name and recorded scope while it is
/// unresolved, nothing once it is resolved.
fn read_site(d: &Declaration, site: IdSite) -> (r: Option<(String, ScopeKind)>)
    requires
        site_id(*d, site) is Some,
    ensures
        ({
            let id = site_id(*d, site)->Some_0;
            match id.id_kind@ {
                SpecIdKind::Unresolved { scope_used, .. } => (match r {
                    Some(p) => p.0@ == id.name@ && p.1@ == scope_used,
                    None => false,
                }),
                SpecIdKind::Resolved { .. } => r is None,
            }
        }),
{
    let Declaration::ValueDecl(v) = d;
    let id: &ScopedId = match site {
        IdSite::DeclType => match &v.type_kind {
            TypeKind::Identifier(id) => id,
            _ => vstd::pervasive::unreached(),
        },
        IdSite::ReturnType => match &v.type_kind {
            TypeKind::FuncType(f) => match &*f.return_type {
                TypeKind::Identifier(id) => id,
                _ => vstd::pervasive::unreached(),
            },
            _ => vstd::pervasive::unreached(),
        },
        IdSite::DeclExpr => match &v.decl_kind {
            DeclKind::AssignDecl(e) => match &**e {
                Expression::Identifier(id) => id,
                _ => vstd::pervasive::unreached(),
            },
            DeclKind::FuncDecl(e) => match &**e {
                Expression::Identifier(id) => id,
                _ => vstd::pervasive::unreached(),
            },
            DeclKind::EmptyDecl => vstd::pervasive::unreached(),
        },
    };
    match &id.id_kind {
        IdKind::Unresolved { scope_used, .. } => Some((id.name.clone(), scope_used.dup())),
        IdKind::Resolved { .. } => None,
    }
}

/// Declaration lists with pointwise-equal skeletons agree on what resolves
/// and to what.
proof fn lemma_binds_transfer(
    orig: Seq<Declaration>,
    cur: Seq<Declaration>,
    name: Seq<char>,
    su: SpecScopeKind,
)
    requires
        orig.len() == cur.len(),
        forall|i: int| 0 <= i < orig.len() ==> same_skeleton(#[trigger] orig[i], cur[i]),
    ensures
        resolvable(cur, name, su) == resolvable(orig, name, su),
        forall|k: SpecIdKind| #[trigger] binds_to(cur, name, su, k) == binds_to(orig, name, su, k),
{
    assert forall|i: int| 0 <= i < orig.len() implies decl_ident(cur[i]) == decl_ident(
        #[trigger] orig[i],
    ) by {
        assert(same_skeleton(orig[i], cur[i]));
    }
    assert(decls_contain(cur, name) == decls_contain(orig, name)) by {
        if decls_contain(cur, name) {
            let i = choose|i: int| 0 <= i < cur.len() && decl_ident(#[trigger] cur[i]) == name;
            assert(decl_ident(orig[i]) == name);
        }
        if decls_contain(orig, name) {
            let i = choose|i: int| 0 <= i < orig.len() && decl_ident(#[trigger] orig[i]) == name;
            assert(decl_ident(cur[i]) == name);
        }
    }
    assert forall|t: int| is_first_match(cur, name, t) == is_first_match(orig, name, t) by {
        if is_first_match(cur, name, t) {
            assert(decl_ident(orig[t]) == name);
            assert forall|j: int| 0 <= j < t implies decl_ident(#[trigger] orig[j]) != name by {
                assert(decl_ident(cur[j]) != name);
            }
        }
        if is_first_match(orig, name, t) {
            assert(decl_ident(cur[t]) == name);
            assert forall|j: int| 0 <= j < t implies decl_ident(#[trigger] cur[j]) != name by {
                assert(decl_ident(orig[j]) != name);
            }
        }
    }
    match su {
        SpecScopeKind::Function(path, fi) => {
            if fi < orig.len() {
                assert(same_skeleton(orig[fi as int], cur[fi as int]));
            }
        },
        _ => {},
    }
}

impl Parser {
    /// Drain the unresolved queue in order, binding each identifier by the
    /// chain walk; a second run after a successful one changes nothing.
    #[verifier::loop_isolation(false)]
    pub fn resolve_identifiers(&mut self) -> (r: Result<(), ResolveError>)
        requires
            old(self).wf(),
        ensures
            final(self).decls().len() == old(self).decls().len(),
            forall|i: int|
                0 <= i < old(self).decls().len() ==> same_skeleton(
                    #[trigger] old(self).decls()[i],
                    final(self).decls()[i],
                ),
            forall|i: int, site: IdSite|
                0 <= i < old(self).decls().len() ==> #[trigger] site_rel(
                    old(self).decls(),
                    final(self).decls(),
                    i,
                    site,
                ),
            r is Ok ==> final(self).wf() && final(self).queue().len() == 0,
            r is Ok ==> forall|i: int, site: IdSite|
                0 <= i < final(self).decls().len() ==> !(#[trigger] site_unresolved(
                    final(self).decls()[i],
                    site,
                )),
            old(self).queue().len() == 0 ==> r is Ok && final(self).decls() == old(self).decls()
                && final(self).queue() == old(self).queue(),
            (match r {
                Err(e) => exists|i: int, site: IdSite|
                    0 <= i < old(self).decls().len() && (match #[trigger] site_id(
                        old(self).decls()[i],
                        site,
                    ) {
                        Some(id) => (match id.id_kind@ {
                            SpecIdKind::Unresolved { scope_used, .. } => !resolvable(
                                old(self).decls(),
                                id.name@,
                                scope_used,
                            ) && e.message@ == unresolved_text(id.name@),
                            _ => false,
                        }),
                        None => false,
                    }),
                Ok(_) => true,
            }),
    {
        let ghost orig = old(self).decls();
        if self.unresolved_identifiers.is_empty() {
            proof {
                assert forall|i: int, site: IdSite|
                    0 <= i < self.decls().len() implies !(#[trigger] site_unresolved(
                    self.decls()[i],
                    site,
                )) by {
                    if site_unresolved(self.decls()[i], site) {
                        assert(self.queue().contains(IdRef { decl_index: i as usize, site }));
                    }
                }
                assert forall|i: int, site: IdSite|
                    0 <= i < orig.len() implies #[trigger] site_rel(
                    orig,
                    self.decls(),
                    i,
                    site,
                ) by {}
            }
            return Ok(());
        }
        loop
            invariant
                self.wf(),
                self.decls().len() == orig.len(),
                forall|i: int|
                    0 <= i < orig.len() ==> same_skeleton(#[trigger] orig[i], self.decls()[i]),
                forall|i: int, site: IdSite|
                    0 <= i < orig.len() ==> #[trigger] site_rel(orig, self.decls(), i, site),
            decreases self.queue().len(),
        {
            if self.unresolved_identifiers.is_empty() {
                proof {
                    assert forall|i: int, site: IdSite|
                        0 <= i < self.decls().len() implies !(#[trigger] site_unresolved(
                        self.decls()[i],
                        site,
                    )) by {
                        if site_unresolved(self.decls()[i], site) {
                            assert(self.queue().contains(IdRef { decl_index: i as usize, site }));
                        }
                    }
                }
                return Ok(());
            }
            let ghost qpre = self.queue();
            let ghost dpre = self.decls();
            let dlen = self.ast.declarations.len();
            let q = self.unresolved_identifiers.remove(0);
            proof {
                assert(qpre[0] == q);
                assert(queue_entry_ok(dpre, q));
                assert(self.queue() =~= qpre.drop_first());
            }
            let info = read_site(&self.ast.declarations[q.decl_index], q.site);
            match info {
                None => {
                    // This occurrence was already bound; nothing to do.
                    proof {
                        assert forall|i: int, site: IdSite|
                            0 <= i < self.decls().len() && #[trigger] site_unresolved(
                                self.decls()[i],
                                site,
                            ) implies self.queue().contains(
                            IdRef { decl_index: i as usize, site },
                        ) by {
                            let e = IdRef { decl_index: i as usize, site };
                            assert(qpre.contains(e));
                            let w = choose|w: int| 0 <= w < qpre.len() && qpre[w] == e;
                            if w == 0 {
                                assert(q == e);
                                assert(dpre.len() == dlen);
                                assert((i as usize) as int == i);
                                assert(q.decl_index as int == i && q.site == site);
                                assert(self.decls() =~= dpre);
                                assert(site_unresolved(dpre[i], site));
                                let ido = site_id(dpre[q.decl_index as int], q.site)->Some_0;
                                assert(ido.id_kind is Unresolved);
                                assert(ido.id_kind@ is Unresolved);
                                assert(false);
                            } else {
                                assert(self.queue()[w - 1] == e);
                            }
                        }
                    }
                },
                Some((name, scope_used)) => {
                    let ghost id0 = site_id(dpre[q.decl_index as int], q.site)->Some_0;
                    let ghost su = id0.id_kind@->Unresolved_scope_used;
                    let target: IdKind = match scope_used {
                        ScopeKind::GlobalNamespace => {
                            match crate::ast::find_decl(&self.ast.declarations, &name) {
                                Some(t) => IdKind::Resolved {
                                    declaration: t,
                                    scope: ScopeKind::GlobalNamespace,
                                },
                                None => {
                                    proof {
                                        lemma_binds_transfer(orig, dpre, name@, su);
                                        assert(site_rel(orig, dpre, q.decl_index as int, q.site));
                                    }
                                    let mut message = "could not resolve identifier `".to_owned();
                                    message.append(name.as_str());
                                    message.append("`");
                                    return Err(ResolveError { message });
                                },
                            }
                        },
                        ScopeKind::Function(path, fi) => {
                            let Declaration::ValueDecl(v) = &self.ast.declarations[fi];
                            match &v.type_kind {
                                TypeKind::FuncType(f) => {
                                    match crate::ast::find_arg(f, &name) {
                                        Some(t) => IdKind::Resolved {
                                            declaration: t,
                                            scope: ScopeKind::Function(path, fi),
                                        },
                                        None => {
                                            match crate::ast::find_decl(
                                                &self.ast.declarations,
                                                &name,
                                            ) {
                                                Some(t) => IdKind::Resolved {
                                                    declaration: t,
                                                    scope: ScopeKind::GlobalNamespace,
                                                },
                                                None => {
                                                    proof {
                                                        lemma_binds_transfer(orig, dpre, name@, su);
                                                        assert(site_rel(
                                                            orig,
                                                            dpre,
                                                            q.decl_index as int,
                                                            q.site,
                                                        ));
                                                    }
                                                    let mut message =
                                                        "could not resolve identifier `".to_owned();
                                                    message.append(name.as_str());
                                                    message.append("`");
                                                    return Err(ResolveError { message });
                                                },
                                            }
                                        },
                                    }
                                },
                                _ => vstd::pervasive::unreached(),
                            }
                        },
                        ScopeKind::SubNamespace(_) => vstd::pervasive::unreached(),
                    };
                    let ghost tview = target@;
                    proof {
                        lemma_binds_transfer(orig, dpre, name@, su);
                        assert(binds_to(dpre, name@, su, tview));
                        assert(resolvable(dpre, name@, su));
                    }
                    let d = self.ast.declarations.remove(q.decl_index);
                    let d2 = set_site_id(d, q.site, target);
                    self.ast.declarations.insert(q.decl_index, d2);
                    proof {
                        let qi = q.decl_index as int;
                        assert(self.decls() =~= dpre.update(qi, d2)) by {
                            assert forall|j: int| 0 <= j < dpre.len() implies self.decls()[j]
                                == dpre.update(qi, d2)[j] by {
                                if j < qi {
                                } else if j == qi {
                                } else {
                                }
                            }
                        }
                        assert(same_skeleton(dpre[qi], d2));
                        assert forall|i: int|
                            0 <= i < orig.len() implies same_skeleton(
                            #[trigger] orig[i],
                            self.decls()[i],
                        ) by {
                            if i == qi {
                                assert(same_skeleton(orig[qi], dpre[qi]));
                            }
                        }
                        assert forall|i: int, site: IdSite|
                            0 <= i < orig.len() implies #[trigger] site_rel(
                            orig,
                            self.decls(),
                            i,
                            site,
                        ) by {
                            assert(site_rel(orig, dpre, i, site));
                            if i == qi {
                                if site == q.site {
                                    assert(site_id(dpre[qi], q.site)->Some_0.id_kind@
                                        == id0.id_kind@);
                                    assert(site_id(orig[qi], q.site) is Some);
                                } else {
                                    assert(site_id(d2, site) == site_id(dpre[qi], site));
                                }
                            }
                        }
                        // The parser invariant survives the rewrite.
                        assert forall|i: int, j: int|
                            0 <= i < j < self.decls().len() implies decl_ident(
                            #[trigger] self.decls()[i],
                        ) != decl_ident(#[trigger] self.decls()[j]) by {
                            assert(same_skeleton(dpre[i], self.decls()[i]) || self.decls()[i]
                                == dpre[i]);
                            assert(decl_ident(self.decls()[i]) == decl_ident(dpre[i]));
                            assert(decl_ident(self.decls()[j]) == decl_ident(dpre[j]));
                        }
                        assert forall|i: int|
                            0 <= i < self.decls().len() implies (match decl_value(
                            #[trigger] self.decls()[i],
                        ).type_kind {
                            TypeKind::FuncType(f) => (forall|j: int|
                                0 <= j < f.arguments@.len() ==> decl_value(
                                    (#[trigger] f.arguments@[j]).decl,
                                ).type_kind is Primitive) && !(*f.return_type is FuncType),
                            _ => true,
                        }) by {
                            if i == qi {
                                match decl_value(dpre[qi]).type_kind {
                                    TypeKind::FuncType(fd) => {
                                        match decl_value(d2).type_kind {
                                            TypeKind::FuncType(fr) => {
                                                assert(fr.arguments@.len()
                                                    == fd.arguments@.len());
                                            },
                                            _ => {},
                                        }
                                    },
                                    _ => {},
                                }
                            }
                        }
                        assert forall|k: int| 0 <= k < self.queue().len() implies queue_entry_ok(
                            self.decls(),
                            #[trigger] self.queue()[k],
                        ) by {
                            assert(self.queue()[k] == qpre[k + 1]);
                            assert(queue_entry_ok(dpre, qpre[k + 1]));
                            let e = qpre[k + 1];
                            if e.decl_index as int == qi {
                                if e.site == q.site {
                                    assert(site_id(d2, e.site) is Some);
                                } else {
                                    assert(site_id(d2, e.site) == site_id(dpre[qi], e.site));
                                }
                            }
                        }
                        assert forall|i: int, site: IdSite|
                            0 <= i < self.decls().len() && #[trigger] site_unresolved(
                                self.decls()[i],
                                site,
                            ) implies self.queue().contains(
                            IdRef { decl_index: i as usize, site },
                        ) by {
                            let e = IdRef { decl_index: i as usize, site };
                            if i == qi && site == q.site {
                                assert(!site_unresolved(self.decls()[i], site));
                            } else {
                                assert(site_unresolved(dpre[i], site)) by {
                                    if i == qi {
                                        assert(site_id(d2, site) == site_id(dpre[qi], site));
                                    }
                                }
                                assert(qpre.contains(e));
                                let w = choose|w: int| 0 <= w < qpre.len() && qpre[w] == e;
                                if w == 0 {
                                    assert(q == e);
                                    assert(dpre.len() == dlen);
                                    assert((i as usize) as int == i);
                                    assert(q.decl_index as int == i && q.site == site);
                                    assert(false);
                                } else {
                                    assert(self.queue()[w - 1] == e);
                                }
                            }
                        }
                    }
                },
            }
        }
    }

    /// Run the resolver and hand out the populated root namespace.
    pub fn finalize(self) -> (r: Result<GlobalNamespace, ResolveError>)
        requires
            self.wf(),
        ensures
            (match r {
                Ok(g) => {
                    &&& g.subnamespaces@.len() == 0
                    &&& g.declarations@.len() == self.decls().len()
                    &&& (forall|i: int|
                        0 <= i < self.decls().len() ==> same_skeleton(
                            #[trigger] self.decls()[i],
                            g.declarations@[i],
                        ))
                    &&& (forall|i: int, site: IdSite|
                        0 <= i < self.decls().len() ==> #[trigger] site_rel(
                            self.decls(),
                            g.declarations@,
                            i,
                            site,
                        ))
                    &&& (forall|i: int, site: IdSite|
                        0 <= i < g.declarations@.len() ==> !(#[trigger] site_unresolved(
                            g.declarations@[i],
                            site,
                        )))
                },
                Err(e) => exists|i: int, site: IdSite|
                    0 <= i < self.decls().len() && (match #[trigger] site_id(
                        self.decls()[i],
                        site,
                    ) {
                        Some(id) => (match id.id_kind@ {
                            SpecIdKind::Unresolved { scope_used, .. } => !resolvable(
                                self.decls(),
                                id.name@,
                                scope_used,
                            ) && e.message@ == unresolved_text(id.name@),
                            _ => false,
                        }),
                        None => false,
                    }),
            }),
    {
        let mut parser = self;
        match parser.resolve_identifiers() {
            Ok(()) => Ok(parser.ast),
            Err(e) => Err(e),
        }
    }
}

} // verus!

verus! {

// ---------------------------------------------------------------------------
// The grammar, as mathematics: scanners over the token stream that fix, for
// every input, whether parsing succeeds, what is built, and otherwise which
// token offends with which message. The executable parser is proved
// equivalent to them.
// ---------------------------------------------------------------------------

/// A parse failure: the message and the offending token's location.
pub struct SpecParseFail {
    pub message: Seq<char>,
    pub location: Location,
}

/// A parsed type annotation.
pub enum SpecType {
    Inferred,
    Named(Seq<char>),
    Prim(Primitive),
}

/// A parsed parameter: its name and its primitive type.
pub struct SpecArg {
    pub name: Seq<char>,
    pub prim: Primitive,
}

/// A parsed expression.
pub enum SpecExpr {
    Ident(Seq<char>),
    IntLit(Seq<char>),
    DecLit(Seq<char>),
    BoolLit(bool),
}

/// What a declaration binds: an assigned expression with its annotation, or
/// a function with parameters, return type, and body expression.
pub enum SpecBody {
    Assign(SpecType, SpecExpr),
    Func(Seq<SpecArg>, SpecType, SpecExpr),
}

/// A parsed top-level declaration.
pub struct SpecDecl {
    pub public: bool,
    pub keyword: DeclKeyword,
    pub name: Seq<char>,
    pub body: SpecBody,
}

/// The token at stream position `i`; past the end it is `EOF` at the
/// end-of-input location.
pub open spec fn tok(ts: Seq<SpecToken>, i: int, eof: Location) -> SpecToken {
    if 0 <= i < ts.len() {
        ts[i]
    } else {
        SpecToken { kind: SpecTokenKind::EOF, location: eof }
    }
}

pub open spec fn fail_unexpected(t: SpecToken, items: Seq<Seq<char>>) -> SpecParseFail {
    SpecParseFail { message: unexpected_text(t.kind, t.location, items), location: t.location }
}

pub open spec fn fail_not_implemented(t: SpecToken) -> SpecParseFail {
    SpecParseFail { message: not_implemented_text(t.kind, t.location), location: t.location }
}

/// An optional type: a `Type` token against the primitive table, a token
/// that ends an absent annotation (nothing consumed), or a failure.
pub open spec fn type_scan(ts: Seq<SpecToken>, i: int, eof: Location) -> Result<
    (SpecType, int),
    SpecParseFail,
> {
    let t = tok(ts, i, eof);
    match t.kind {
        SpecTokenKind::Type(w) => (match prim_of_name(w) {
            Some(p) => Ok((SpecType::Prim(p), i + 1)),
            None => Ok((SpecType::Named(w), i + 1)),
        }),
        _ => if infers_type(t.kind) {
            Ok((SpecType::Inferred, i))
        } else {
            Err(fail_unexpected(t, seq!["type"@]))
        },
    }
}

/// An expression followed by `;`.
pub open spec fn expr_scan(ts: Seq<SpecToken>, i: int, eof: Location) -> Result<
    (SpecExpr, int),
    SpecParseFail,
> {
    let t = tok(ts, i, eof);
    let t2 = tok(ts, i + 1, eof);
    match t.kind {
        SpecTokenKind::Id(w) => if t2.kind is Semicolon {
            Ok((SpecExpr::Ident(w), i + 2))
        } else {
            Err(fail_not_implemented(t2))
        },
        SpecTokenKind::Int(w) => if t2.kind is Semicolon {
            Ok((SpecExpr::IntLit(w), i + 2))
        } else {
            Err(fail_not_implemented(t2))
        },
        SpecTokenKind::Dec(w) => if t2.kind is Semicolon {
            Ok((SpecExpr::DecLit(w), i + 2))
        } else {
            Err(fail_not_implemented(t2))
        },
        SpecTokenKind::Bool(b) => if t2.kind is Semicolon {
            Ok((SpecExpr::BoolLit(b), i + 2))
        } else {
            Err(fail_not_implemented(t2))
        },
        _ => Err(fail_not_implemented(t)),
    }
}

/// One parameter after its name: `: Type` with a primitive type.
pub open spec fn arg_scan(ts: Seq<SpecToken>, i: int, eof: Location, name: Seq<char>) -> Result<
    (SpecArg, int),
    SpecParseFail,
> {
    let t = tok(ts, i, eof);
    match t.kind {
        SpecTokenKind::Colon => (match type_scan(ts, i + 1, eof) {
            Ok((SpecType::Prim(p), ni)) => Ok((SpecArg { name, prim: p }, ni)),
            Ok((SpecType::Named(_), _)) => Err(
                SpecParseFail {
                    message: "Not implemented: non-primitive parameter types"@,
                    location: t.location,
                },
            ),
            Ok((SpecType::Inferred, ni)) => Err(fail_unexpected(tok(ts, ni, eof), seq!["type"@])),
            Err(e) => Err(e),
        }),
        _ => Err(fail_unexpected(t, seq![":"@])),
    }
}

/// The parameter list from inside the parentheses up to and including `)`:
/// names with primitive types, separated by commas, each name new.
pub open spec fn params_scan(
    ts: Seq<SpecToken>,
    i: int,
    eof: Location,
    args: Seq<SpecArg>,
) -> Result<(Seq<SpecArg>, int), SpecParseFail>
    decreases ts.len() - i,
{
    let t = tok(ts, i, eof);
    match t.kind {
        SpecTokenKind::Id(w) => {
            if exists|x: int| 0 <= x < args.len() && (#[trigger] args[x]).name == w {
                Err(
                    SpecParseFail {
                        message: "duplicate parameter identifier"@,
                        location: t.location,
                    },
                )
            } else {
                match arg_scan(ts, i + 1, eof, w) {
                    Ok((arg, ni)) => if i < ni <= ts.len() {
                        params_scan(ts, ni, eof, args.push(arg))
                    } else {
                        // Scans advance within the stream; never taken.
                        Err(fail_unexpected(t, seq!["identifier"@]))
                    },
                    Err(e) => Err(e),
                }
            }
        },
        SpecTokenKind::Comma => params_scan(ts, i + 1, eof, args),
        SpecTokenKind::CloseParen => Ok((args, i + 1)),
        _ => Err(fail_unexpected(t, seq!["identifier"@])),
    }
}

/// A function body after the return type: `do expr ;` (block bodies are not
/// implemented), yielding the whole declaration.
pub open spec fn func_body_scan(
    public: bool,
    keyword: DeclKeyword,
    name: Seq<char>,
    args: Seq<SpecArg>,
    ret: SpecType,
    ts: Seq<SpecToken>,
    i: int,
    eof: Location,
) -> Result<(SpecDecl, int), SpecParseFail> {
    let t = tok(ts, i, eof);
    match t.kind {
        SpecTokenKind::OpenBracket => Err(fail_not_implemented(tok(ts, i + 1, eof))),
        SpecTokenKind::Do => (match expr_scan(ts, i + 1, eof) {
            Ok((e, ni)) => Ok(
                (SpecDecl { public, keyword, name, body: SpecBody::Func(args, ret, e) }, ni),
            ),
            Err(e) => Err(e),
        }),
        _ => Err(fail_unexpected(t, seq!["{"@, "do"@])),
    }
}

/// The rest of a function declaration after its `)`: `-> Type` with a
/// non-named type, then the body.
pub open spec fn func_tail_scan(
    public: bool,
    keyword: DeclKeyword,
    name: Seq<char>,
    args: Seq<SpecArg>,
    ts: Seq<SpecToken>,
    i: int,
    eof: Location,
) -> Result<(SpecDecl, int), SpecParseFail> {
    let t = tok(ts, i, eof);
    match t.kind {
        SpecTokenKind::Arrow => (match type_scan(ts, i + 1, eof) {
            Ok((SpecType::Named(_), _)) => Err(
                SpecParseFail {
                    message: "Not implemented: non-primitive return types"@,
                    location: t.location,
                },
            ),
            Ok((ret, ni2)) => func_body_scan(public, keyword, name, args, ret, ts, ni2, eof),
            Err(e) => Err(e),
        }),
        _ => Err(fail_unexpected(t, seq!["->"@])),
    }
}

/// A function declaration after its opening parenthesis: parameters,
/// `-> Type` with a non-named type, and the body.
#[verifier::opaque]
pub open spec fn func_decl_scan(
    public: bool,
    keyword: DeclKeyword,
    name: Seq<char>,
    ts: Seq<SpecToken>,
    i: int,
    eof: Location,
) -> Result<(SpecDecl, int), SpecParseFail> {
    match params_scan(ts, i, eof, Seq::empty()) {
        Ok((args, ni)) => func_tail_scan(public, keyword, name, args, ts, ni, eof),
        Err(e) => Err(e),
    }
}

/// The rest of a function declaration, with the parameters scanned so far.
pub open spec fn func_decl_cont(
    public: bool,
    keyword: DeclKeyword,
    name: Seq<char>,
    sofar: Seq<SpecArg>,
    ts: Seq<SpecToken>,
    i: int,
    eof: Location,
) -> Result<(SpecDecl, int), SpecParseFail> {
    match params_scan(ts, i, eof, sofar) {
        Ok((args, ni)) => func_tail_scan(public, keyword, name, args, ts, ni, eof),
        Err(e) => Err(e),
    }
}

/// A whole function declaration is its continuation from no parameters.
proof fn lemma_func_decl_scan_is_cont(
    public: bool,
    keyword: DeclKeyword,
    name: Seq<char>,
    ts: Seq<SpecToken>,
    i: int,
    eof: Location,
)
    ensures
        func_decl_scan(public, keyword, name, ts, i, eof) == func_decl_cont(
            public,
            keyword,
            name,
            Seq::empty(),
            ts,
            i,
            eof,
        ),
{
    reveal(func_decl_scan);
}

/// The tail of a top-level declaration after its name and optional
/// annotation: `= expr ;` or a function declaration (which takes no named
/// annotation).
pub open spec fn top_decl_tail(
    public: bool,
    keyword: DeclKeyword,
    name: Seq<char>,
    ty: SpecType,
    ts: Seq<SpecToken>,
    i: int,
    eof: Location,
) -> Result<(SpecDecl, int), SpecParseFail> {
    let t = tok(ts, i, eof);
    match t.kind {
        SpecTokenKind::Equal => (match expr_scan(ts, i + 1, eof) {
            Ok((e, ni)) => Ok(
                (SpecDecl { public, keyword, name, body: SpecBody::Assign(ty, e) }, ni),
            ),
            Err(e) => Err(e),
        }),
        SpecTokenKind::OpenParen => (match ty {
            SpecType::Named(_) => Err(fail_unexpected(t, seq!["="@])),
            _ => func_decl_scan(public, keyword, name, ts, i + 1, eof),
        }),
        _ => Err(fail_unexpected(t, seq!["="@, "("@])),
    }
}

/// One top-level declaration after its keyword: the name, an optional
/// `: Type`, then the tail.
pub open spec fn top_decl_scan(
    public: bool,
    keyword: DeclKeyword,
    ts: Seq<SpecToken>,
    i: int,
    eof: Location,
) -> Result<(SpecDecl, int), SpecParseFail> {
    let t = tok(ts, i, eof);
    match t.kind {
        SpecTokenKind::Id(w) => {
            if tok(ts, i + 1, eof).kind is Colon {
                match type_scan(ts, i + 2, eof) {
                    Ok((ty, ni)) => top_decl_tail(public, keyword, w, ty, ts, ni, eof),
                    Err(e) => Err(e),
                }
            } else {
                top_decl_tail(public, keyword, w, SpecType::Inferred, ts, i + 1, eof)
            }
        },
        SpecTokenKind::OpenBracket => Err(fail_not_implemented(t)),
        _ => Err(fail_unexpected(t, seq!["identifier"@])),
    }
}

/// A public declaration after `pub`: the declaration keyword must follow.
pub open spec fn pub_decl_scan(ts: Seq<SpecToken>, i: int, eof: Location) -> Result<
    (SpecDecl, int),
    SpecParseFail,
> {
    let t = tok(ts, i, eof);
    match t.kind {
        SpecTokenKind::Var => top_decl_scan(true, DeclKeyword::Var, ts, i + 1, eof),
        SpecTokenKind::Let => top_decl_scan(true, DeclKeyword::Let, ts, i + 1, eof),
        SpecTokenKind::Def => top_decl_scan(true, DeclKeyword::Def, ts, i + 1, eof),
        _ => Err(fail_unexpected(t, seq!["var"@, "let"@, "def"@])),
    }
}

/// The names of a declaration list.
pub open spec fn names_of(sds: Seq<SpecDecl>) -> Seq<Seq<char>> {
    sds.map(|i: int, sd: SpecDecl| sd.name)
}

/// The whole program: top-level declarations until EOF, each introducing a
/// new identifier; the first offending token aborts with its message.
pub open spec fn program_scan(
    ts: Seq<SpecToken>,
    i: int,
    eof: Location,
    names: Seq<Seq<char>>,
) -> Result<Seq<SpecDecl>, SpecParseFail>
    decreases ts.len() - i, 1int,
{
    let t = tok(ts, i, eof);
    match t.kind {
        SpecTokenKind::EOF => Ok(Seq::empty()),
        SpecTokenKind::Pub => program_cont(ts, i, eof, names, pub_decl_scan(ts, i + 1, eof), t.location),
        SpecTokenKind::Var => program_cont(
            ts,
            i,
            eof,
            names,
            top_decl_scan(false, DeclKeyword::Var, ts, i + 1, eof),
            t.location,
        ),
        SpecTokenKind::Let => program_cont(
            ts,
            i,
            eof,
            names,
            top_decl_scan(false, DeclKeyword::Let, ts, i + 1, eof),
            t.location,
        ),
        SpecTokenKind::Def => program_cont(
            ts,
            i,
            eof,
            names,
            top_decl_scan(false, DeclKeyword::Def, ts, i + 1, eof),
            t.location,
        ),
        _ => Err(fail_not_implemented(t)),
    }
}

/// After one declaration: reject a duplicate name (at the declaration's
/// first token), else scan on.
pub open spec fn program_cont(
    ts: Seq<SpecToken>,
    i: int,
    eof: Location,
    names: Seq<Seq<char>>,
    parsed: Result<(SpecDecl, int), SpecParseFail>,
    at: Location,
) -> Result<Seq<SpecDecl>, SpecParseFail>
    decreases ts.len() - i, 0int,
{
    match parsed {
        Err(e) => Err(e),
        Ok((sd, ni)) => if names.contains(sd.name) {
            Err(
                SpecParseFail {
                    message: "Duplicate identifier `"@ + sd.name + "`"@,
                    location: at,
                },
            )
        } else if i < ni <= ts.len() {
            match program_scan(ts, ni, eof, names.push(sd.name)) {
                Ok(rest) => Ok(seq![sd] + rest),
                Err(e) => Err(e),
            }
        } else {
            // Scans advance within the stream; never taken.
            Err(SpecParseFail { message: Seq::empty(), location: at })
        },
    }
}

// ---------------------------------------------------------------------------
// What a built declaration must look like for a scanned one.
// ---------------------------------------------------------------------------

/// The built type for a scanned annotation; a named type is an unresolved
/// identifier recorded in `scope`.
pub open spec fn type_matches_in(t: TypeKind, st: SpecType, scope: SpecScopeKind) -> bool {
    match st {
        SpecType::Inferred => t is Inferred,
        SpecType::Prim(p) => t == TypeKind::Primitive(p),
        SpecType::Named(w) => (match t {
            TypeKind::Identifier(id) => id.name@ == w && id.id_kind@ == (SpecIdKind::Unresolved {
                scope_used: scope,
                scope_described: Seq::empty(),
            }),
            _ => false,
        }),
    }
}

/// The built expression for a scanned one; an identifier is unresolved and
/// recorded in `scope`.
pub open spec fn expr_matches(e: Expression, se: SpecExpr, scope: SpecScopeKind) -> bool {
    match se {
        SpecExpr::Ident(w) => (match e {
            Expression::Identifier(id) => id.name@ == w && id.id_kind@ == (SpecIdKind::Unresolved {
                scope_used: scope,
                scope_described: Seq::empty(),
            }),
            _ => false,
        }),
        SpecExpr::IntLit(w) => (match e {
            Expression::Integer(s) => s@ == w,
            _ => false,
        }),
        SpecExpr::DecLit(w) => (match e {
            Expression::Decimal(s) => s@ == w,
            _ => false,
        }),
        SpecExpr::BoolLit(b) => e == Expression::Bool(b),
    }
}

/// The built parameter for a scanned one: a public `let` with no body and
/// that primitive type.
pub open spec fn arg_matches(a: Argument, sa: SpecArg) -> bool {
    let v = decl_value(a.decl);
    &&& v.public == true
    &&& v.decl_keyword == DeclKeyword::Let
    &&& v.decl_kind is EmptyDecl
    &&& v.identifier@ == sa.name
    &&& v.type_kind == TypeKind::Primitive(sa.prim)
}

/// The scanned form of a built parameter; meaningful for primitive-typed
/// parameters, which is the only kind the parser builds.
pub open spec fn arg_spec(a: Argument) -> SpecArg
    recommends
        decl_value(a.decl).type_kind is Primitive,
{
    SpecArg {
        name: decl_value(a.decl).identifier@,
        prim: (match decl_value(a.decl).type_kind {
            TypeKind::Primitive(p) => p,
            _ => Primitive::U8,
        }),
    }
}

pub open spec fn args_spec(args: Seq<Argument>) -> Seq<SpecArg> {
    args.map(|i: int, a: Argument| arg_spec(a))
}

/// Every parameter is as the parser builds them: a public `let` with no
/// body and a primitive type.
pub open spec fn wf_params(args: Seq<Argument>) -> bool {
    forall|j: int| 0 <= j < args.len() ==> arg_matches(#[trigger] args[j], arg_spec(args[j]))
}

/// The scanned form of a built annotation; meaningful away from function
/// types, which never stand as annotations.
pub open spec fn type_spec_of(t: TypeKind) -> SpecType
    recommends
        !(t is FuncType),
{
    match t {
        TypeKind::Inferred => SpecType::Inferred,
        TypeKind::Primitive(p) => SpecType::Prim(p),
        TypeKind::Identifier(id) => SpecType::Named(id.name@),
        TypeKind::FuncType(_) => SpecType::Inferred,
    }
}

/// The built declaration for a scanned one, destined for root slot `slot`:
/// flags, keyword, name, annotation, parameters, return type, and
/// expression all agree; identifiers in a function body record the
/// function's own scope, all others the root.
pub open spec fn decl_matches(d: Declaration, sd: SpecDecl, slot: int) -> bool {
    let v = decl_value(d);
    &&& v.public == sd.public
    &&& v.decl_keyword == sd.keyword
    &&& v.identifier@ == sd.name
    &&& (match sd.body {
        SpecBody::Assign(st, se) => {
            &&& type_matches_in(v.type_kind, st, SpecScopeKind::GlobalNamespace)
            &&& (match v.decl_kind {
                DeclKind::AssignDecl(e) => expr_matches(*e, se, SpecScopeKind::GlobalNamespace),
                _ => false,
            })
        },
        SpecBody::Func(sargs, sret, se) => {
            &&& (match v.type_kind {
                TypeKind::FuncType(f) => {
                    &&& f.arguments@.len() == sargs.len()
                    &&& (forall|j: int|
                        0 <= j < sargs.len() ==> arg_matches(
                            #[trigger] f.arguments@[j],
                            sargs[j],
                        ))
                    &&& type_matches_in(
                        *f.return_type,
                        sret,
                        SpecScopeKind::GlobalNamespace,
                    )
                },
                _ => false,
            })
            &&& (match v.decl_kind {
                DeclKind::FuncDecl(e) => expr_matches(
                    *e,
                    se,
                    SpecScopeKind::Function(Seq::empty(), slot as usize),
                ),
                _ => false,
            })
        },
    })
}

} // verus!

verus! {

// ---------------------------------------------------------------------------
// Successful scans stay within the stream and advance.
// ---------------------------------------------------------------------------

proof fn lemma_type_scan_bounds(ts: Seq<SpecToken>, i: int, eof: Location)
    requires
        0 <= i,
    ensures
        (match type_scan(ts, i, eof) {
            Ok((st, ni)) => ni <= ts.len() && (if st is Inferred {
                ni == i && i < ts.len()
            } else {
                ni == i + 1
            }),
            Err(_) => true,
        }),
{
}

proof fn lemma_expr_scan_bounds(ts: Seq<SpecToken>, i: int, eof: Location)
    requires
        0 <= i,
    ensures
        (match expr_scan(ts, i, eof) {
            Ok((_, ni)) => ni == i + 2 && ni <= ts.len(),
            Err(_) => true,
        }),
{
}

proof fn lemma_arg_scan_bounds(ts: Seq<SpecToken>, i: int, eof: Location, name: Seq<char>)
    requires
        0 <= i,
    ensures
        (match arg_scan(ts, i, eof, name) {
            Ok((_, ni)) => ni == i + 2 && ni <= ts.len(),
            Err(_) => true,
        }),
{
    lemma_type_scan_bounds(ts, i + 1, eof);
}

proof fn lemma_params_scan_bounds(ts: Seq<SpecToken>, i: int, eof: Location, args: Seq<SpecArg>)
    requires
        0 <= i,
    ensures
        (match params_scan(ts, i, eof, args) {
            Ok((_, ni)) => i < ni <= ts.len(),
            Err(_) => true,
        }),
    decreases ts.len() - i,
{
    let t = tok(ts, i, eof);
    match t.kind {
        SpecTokenKind::Id(w) => {
            lemma_arg_scan_bounds(ts, i + 1, eof, w);
            match arg_scan(ts, i + 1, eof, w) {
                Ok((arg, ni)) => {
                    lemma_params_scan_bounds(ts, ni, eof, args.push(arg));
                },
                Err(_) => {},
            }
        },
        SpecTokenKind::Comma => {
            lemma_params_scan_bounds(ts, i + 1, eof, args);
        },
        _ => {},
    }
}

proof fn lemma_func_body_scan_bounds(
    public: bool,
    keyword: DeclKeyword,
    name: Seq<char>,
    args: Seq<SpecArg>,
    ret: SpecType,
    ts: Seq<SpecToken>,
    i: int,
    eof: Location,
)
    requires
        0 <= i,
    ensures
        (match func_body_scan(public, keyword, name, args, ret, ts, i, eof) {
            Ok((_, ni)) => i < ni <= ts.len(),
            Err(_) => true,
        }),
{
    lemma_expr_scan_bounds(ts, i + 1, eof);
}

proof fn lemma_func_decl_scan_bounds(
    public: bool,
    keyword: DeclKeyword,
    name: Seq<char>,
    ts: Seq<SpecToken>,
    i: int,
    eof: Location,
)
    requires
        0 <= i,
    ensures
        (match func_decl_scan(public, keyword, name, ts, i, eof) {
            Ok((_, ni)) => i < ni <= ts.len(),
            Err(_) => true,
        }),
{
    reveal(func_decl_scan);
    lemma_params_scan_bounds(ts, i, eof, Seq::empty());
    match params_scan(ts, i, eof, Seq::empty()) {
        Ok((args, ni)) => {
            lemma_func_tail_scan_bounds(public, keyword, name, args, ts, ni, eof);
        },
        Err(_) => {},
    }
}

proof fn lemma_func_tail_scan_bounds(
    public: bool,
    keyword: DeclKeyword,
    name: Seq<char>,
    args: Seq<SpecArg>,
    ts: Seq<SpecToken>,
    i: int,
    eof: Location,
)
    requires
        0 <= i,
    ensures
        (match func_tail_scan(public, keyword, name, args, ts, i, eof) {
            Ok((_, ni)) => i < ni <= ts.len(),
            Err(_) => true,
        }),
{
    lemma_type_scan_bounds(ts, i + 1, eof);
    match type_scan(ts, i + 1, eof) {
        Ok((ret, ni2)) => {
            lemma_func_body_scan_bounds(public, keyword, name, args, ret, ts, ni2, eof);
        },
        Err(_) => {},
    }
}

proof fn lemma_top_decl_scan_bounds(
    public: bool,
    keyword: DeclKeyword,
    ts: Seq<SpecToken>,
    i: int,
    eof: Location,
)
    requires
        0 <= i,
    ensures
        (match top_decl_scan(public, keyword, ts, i, eof) {
            Ok((_, ni)) => i < ni <= ts.len(),
            Err(_) => true,
        }),
{
    let t = tok(ts, i, eof);
    match t.kind {
        SpecTokenKind::Id(w) => {
            if tok(ts, i + 1, eof).kind is Colon {
                lemma_type_scan_bounds(ts, i + 2, eof);
                match type_scan(ts, i + 2, eof) {
                    Ok((ty, ni)) => {
                        lemma_top_decl_tail_bounds(public, keyword, w, ty, ts, ni, eof);
                    },
                    Err(_) => {},
                }
            } else {
                lemma_top_decl_tail_bounds(public, keyword, w, SpecType::Inferred, ts, i + 1, eof);
            }
        },
        _ => {},
    }
}

proof fn lemma_top_decl_tail_bounds(
    public: bool,
    keyword: DeclKeyword,
    name: Seq<char>,
    ty: SpecType,
    ts: Seq<SpecToken>,
    i: int,
    eof: Location,
)
    requires
        0 <= i,
    ensures
        (match top_decl_tail(public, keyword, name, ty, ts, i, eof) {
            Ok((_, ni)) => i < ni <= ts.len(),
            Err(_) => true,
        }),
{
    lemma_expr_scan_bounds(ts, i + 1, eof);
    lemma_func_decl_scan_bounds(public, keyword, name, ts, i + 1, eof);
}

proof fn lemma_pub_decl_scan_bounds(ts: Seq<SpecToken>, i: int, eof: Location)
    requires
        0 <= i,
    ensures
        (match pub_decl_scan(ts, i, eof) {
            Ok((_, ni)) => i < ni <= ts.len(),
            Err(_) => true,
        }),
{
    lemma_top_decl_scan_bounds(true, DeclKeyword::Var, ts, i + 1, eof);
    lemma_top_decl_scan_bounds(true, DeclKeyword::Let, ts, i + 1, eof);
    lemma_top_decl_scan_bounds(true, DeclKeyword::Def, ts, i + 1, eof);
}

} // verus!

verus! {

// ---------------------------------------------------------------------------
// Scans only look at the stream from their position on.
// ---------------------------------------------------------------------------

proof fn lemma_tok_shift(ts: Seq<SpecToken>, a: int, i: int, eof: Location)
    requires
        0 <= a <= ts.len(),
        0 <= i,
    ensures
        tok(ts.skip(a), i, eof) == tok(ts, a + i, eof),
{
    if i < ts.len() - a {
        assert(ts.skip(a)[i] == ts[a + i]);
    }
}

proof fn lemma_type_scan_shift(ts: Seq<SpecToken>, a: int, i: int, eof: Location)
    requires
        0 <= a <= ts.len(),
        0 <= i,
    ensures
        type_scan(ts, a + i, eof) == (match type_scan(ts.skip(a), i, eof) {
            Ok((st, ni)) => Ok::<(SpecType, int), SpecParseFail>((st, a + ni)),
            Err(e) => Err(e),
        }),
{
    lemma_tok_shift(ts, a, i, eof);
}

proof fn lemma_expr_scan_shift(ts: Seq<SpecToken>, a: int, i: int, eof: Location)
    requires
        0 <= a <= ts.len(),
        0 <= i,
    ensures
        expr_scan(ts, a + i, eof) == (match expr_scan(ts.skip(a), i, eof) {
            Ok((e, ni)) => Ok::<(SpecExpr, int), SpecParseFail>((e, a + ni)),
            Err(e) => Err(e),
        }),
{
    lemma_tok_shift(ts, a, i, eof);
    lemma_tok_shift(ts, a, i + 1, eof);
}

proof fn lemma_arg_scan_shift(ts: Seq<SpecToken>, a: int, i: int, eof: Location, name: Seq<char>)
    requires
        0 <= a <= ts.len(),
        0 <= i,
    ensures
        arg_scan(ts, a + i, eof, name) == (match arg_scan(ts.skip(a), i, eof, name) {
            Ok((arg, ni)) => Ok::<(SpecArg, int), SpecParseFail>((arg, a + ni)),
            Err(e) => Err(e),
        }),
{
    lemma_tok_shift(ts, a, i, eof);
    lemma_type_scan_shift(ts, a, i + 1, eof);
    lemma_type_scan_bounds(ts.skip(a), i + 1, eof);
    match type_scan(ts.skip(a), i + 1, eof) {
        Ok((SpecType::Inferred, ni)) => {
            lemma_tok_shift(ts, a, ni, eof);
        },
        _ => {},
    }
}

proof fn lemma_params_scan_shift(
    ts: Seq<SpecToken>,
    a: int,
    i: int,
    eof: Location,
    args: Seq<SpecArg>,
)
    requires
        0 <= a <= ts.len(),
        0 <= i,
    ensures
        params_scan(ts, a + i, eof, args) == (match params_scan(ts.skip(a), i, eof, args) {
            Ok((r, ni)) => Ok::<(Seq<SpecArg>, int), SpecParseFail>((r, a + ni)),
            Err(e) => Err(e),
        }),
    decreases ts.len() - a - i,
{
    lemma_tok_shift(ts, a, i, eof);
    let t = tok(ts.skip(a), i, eof);
    match t.kind {
        SpecTokenKind::Id(w) => {
            lemma_arg_scan_shift(ts, a, i + 1, eof, w);
            lemma_arg_scan_bounds(ts.skip(a), i + 1, eof, w);
            lemma_arg_scan_bounds(ts, a + i + 1, eof, w);
            match arg_scan(ts.skip(a), i + 1, eof, w) {
                Ok((arg, ni)) => {
                    if i < ni <= ts.skip(a).len() {
                        lemma_params_scan_shift(ts, a, ni, eof, args.push(arg));
                    }
                },
                Err(_) => {},
            }
        },
        SpecTokenKind::Comma => {
            lemma_params_scan_shift(ts, a, i + 1, eof, args);
        },
        _ => {},
    }
}

proof fn lemma_func_body_scan_shift(
    public: bool,
    keyword: DeclKeyword,
    name: Seq<char>,
    args: Seq<SpecArg>,
    ret: SpecType,
    ts: Seq<SpecToken>,
    a: int,
    i: int,
    eof: Location,
)
    requires
        0 <= a <= ts.len(),
        0 <= i,
    ensures
        func_body_scan(public, keyword, name, args, ret, ts, a + i, eof) == (match func_body_scan(
            public,
            keyword,
            name,
            args,
            ret,
            ts.skip(a),
            i,
            eof,
        ) {
            Ok((sd, ni)) => Ok::<(SpecDecl, int), SpecParseFail>((sd, a + ni)),
            Err(e) => Err(e),
        }),
{
    lemma_tok_shift(ts, a, i, eof);
    lemma_tok_shift(ts, a, i + 1, eof);
    lemma_expr_scan_shift(ts, a, i + 1, eof);
}

#[verifier::rlimit(100)]
#[verifier::spinoff_prover]
proof fn lemma_func_decl_scan_shift(
    public: bool,
    keyword: DeclKeyword,
    name: Seq<char>,
    ts: Seq<SpecToken>,
    a: int,
    i: int,
    eof: Location,
)
    requires
        0 <= a <= ts.len(),
        0 <= i,
    ensures
        func_decl_scan(public, keyword, name, ts, a + i, eof) == (match func_decl_scan(
            public,
            keyword,
            name,
            ts.skip(a),
            i,
            eof,
        ) {
            Ok((sd, ni)) => Ok::<(SpecDecl, int), SpecParseFail>((sd, a + ni)),
            Err(e) => Err(e),
        }),
{
    reveal(func_decl_scan);
    lemma_params_scan_shift(ts, a, i, eof, Seq::empty());
    lemma_params_scan_bounds(ts.skip(a), i, eof, Seq::empty());
    match params_scan(ts.skip(a), i, eof, Seq::empty()) {
        Ok((args, ni)) => {
            lemma_func_tail_scan_shift(public, keyword, name, args, ts, a, ni, eof);
        },
        Err(_) => {},
    }
}

proof fn lemma_func_tail_scan_shift(
    public: bool,
    keyword: DeclKeyword,
    name: Seq<char>,
    args: Seq<SpecArg>,
    ts: Seq<SpecToken>,
    a: int,
    i: int,
    eof: Location,
)
    requires
        0 <= a <= ts.len(),
        0 <= i,
    ensures
        func_tail_scan(public, keyword, name, args, ts, a + i, eof) == (match func_tail_scan(
            public,
            keyword,
            name,
            args,
            ts.skip(a),
            i,
            eof,
        ) {
            Ok((sd, ni)) => Ok::<(SpecDecl, int), SpecParseFail>((sd, a + ni)),
            Err(e) => Err(e),
        }),
{
    lemma_tok_shift(ts, a, i, eof);
    lemma_type_scan_shift(ts, a, i + 1, eof);
    lemma_type_scan_bounds(ts.skip(a), i + 1, eof);
    match type_scan(ts.skip(a), i + 1, eof) {
        Ok((ret, ni2)) => {
            lemma_func_body_scan_shift(public, keyword, name, args, ret, ts, a, ni2, eof);
        },
        Err(_) => {},
    }
}

#[verifier::rlimit(100)]
#[verifier::spinoff_prover]
proof fn lemma_top_decl_scan_shift(
    public: bool,
    keyword: DeclKeyword,
    ts: Seq<SpecToken>,
    a: int,
    i: int,
    eof: Location,
)
    requires
        0 <= a <= ts.len(),
        0 <= i,
    ensures
        top_decl_scan(public, keyword, ts, a + i, eof) == (match top_decl_scan(
            public,
            keyword,
            ts.skip(a),
            i,
            eof,
        ) {
            Ok((sd, ni)) => Ok::<(SpecDecl, int), SpecParseFail>((sd, a + ni)),
            Err(e) => Err(e),
        }),
{
    lemma_tok_shift(ts, a, i, eof);
    lemma_tok_shift(ts, a, i + 1, eof);
    let t = tok(ts.skip(a), i, eof);
    match t.kind {
        SpecTokenKind::Id(w) => {
            if tok(ts.skip(a), i + 1, eof).kind is Colon {
                lemma_type_scan_shift(ts, a, i + 2, eof);
                lemma_type_scan_bounds(ts.skip(a), i + 2, eof);
                match type_scan(ts.skip(a), i + 2, eof) {
                    Ok((ty, ni)) => {
                        lemma_top_decl_tail_shift(public, keyword, w, ty, ts, a, ni, eof);
                    },
                    Err(_) => {},
                }
            } else {
                lemma_top_decl_tail_shift(
                    public,
                    keyword,
                    w,
                    SpecType::Inferred,
                    ts,
                    a,
                    i + 1,
                    eof,
                );
            }
        },
        _ => {},
    }
}

#[verifier::rlimit(100)]
#[verifier::spinoff_prover]
proof fn lemma_top_decl_tail_shift(
    public: bool,
    keyword: DeclKeyword,
    name: Seq<char>,
    ty: SpecType,
    ts: Seq<SpecToken>,
    a: int,
    i: int,
    eof: Location,
)
    requires
        0 <= a <= ts.len(),
        0 <= i,
    ensures
        top_decl_tail(public, keyword, name, ty, ts, a + i, eof) == (match top_decl_tail(
            public,
            keyword,
            name,
            ty,
            ts.skip(a),
            i,
            eof,
        ) {
            Ok((sd, ni)) => Ok::<(SpecDecl, int), SpecParseFail>((sd, a + ni)),
            Err(e) => Err(e),
        }),
{
    lemma_tok_shift(ts, a, i, eof);
    lemma_expr_scan_shift(ts, a, i + 1, eof);
    lemma_func_decl_scan_shift(public, keyword, name, ts, a, i + 1, eof);
}

#[verifier::rlimit(100)]
#[verifier::spinoff_prover]
proof fn lemma_pub_decl_scan_shift(ts: Seq<SpecToken>, a: int, i: int, eof: Location)
    requires
        0 <= a <= ts.len(),
        0 <= i,
    ensures
        pub_decl_scan(ts, a + i, eof) == (match pub_decl_scan(ts.skip(a), i, eof) {
            Ok((sd, ni)) => Ok::<(SpecDecl, int), SpecParseFail>((sd, a + ni)),
            Err(e) => Err(e),
        }),
{
    lemma_tok_shift(ts, a, i, eof);
    lemma_top_decl_scan_shift(true, DeclKeyword::Var, ts, a, i + 1, eof);
    lemma_top_decl_scan_shift(true, DeclKeyword::Let, ts, a, i + 1, eof);
    lemma_top_decl_scan_shift(true, DeclKeyword::Def, ts, a, i + 1, eof);
}

} // verus!
