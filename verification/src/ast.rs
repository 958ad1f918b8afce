//! The declaration tree: namespaces, declarations, types, expressions, and
//! scope references. Back references into the tree are modelled with stable
//! indices: a namespace is named by the path of child indices from the root,
//! and a declaration by its scope together with its index in that scope.

use vstd::prelude::*;
use crate::text::dec_chars;
use crate::text::dec_string;

verus! {

/// A line/column pair kept while bytes are consumed; used only for diagnostics.
#[derive(Clone, Copy, Debug)]
pub struct Location {
    pub line: u16,
    pub column: u16,
}

/// The diagnostic text of a location.
pub open spec fn loc_chars(loc: Location) -> Seq<char> {
    "line: "@ + dec_chars(loc.line as nat) + ", char: "@ + dec_chars(loc.column as nat)
}

impl Location {
    /// The diagnostic rendering of a location.
    pub fn str(&self) -> (r: String)
        ensures
            r@ == loc_chars(*self),
    {
        let mut r = "line: ".to_owned();
        r.append(dec_string(self.line as u128).as_str());
        r.append(", char: ");
        r.append(dec_string(self.column as u128).as_str());
        r
    }

    /// Advance to the start of the next line.
    pub fn inc_line(&mut self)
        requires
            old(self).line < u16::MAX,
        ensures
            final(self).line == old(self).line + 1,
            final(self).column == 0,
    {
        self.line = self.line + 1;
        self.column = 0;
    }

    /// Advance the column by `count` characters within the current line.
    pub fn inc_char(&mut self, count: u16)
        requires
            old(self).column + count <= u16::MAX,
        ensures
            final(self).line == old(self).line,
            final(self).column == old(self).column + count,
    {
        self.column = self.column + count;
    }
}

} // verus!

verus! {

// ---------------------------------------------------------------------------
// The declaration tree.
// ---------------------------------------------------------------------------

/// The keyword a value was declared with: `var` is mutable, `let` and `def`
/// are constant.
#[derive(Clone, Copy, Debug, Eq, PartialEq, Structural)]
pub enum DeclKeyword {
    Var,
    Let,
    Def,
}

/// A built-in numeric or boolean type with a fixed bit width. `U1` and `Bool`
/// are distinct types that emit the same one-bit IR type.
#[derive(Clone, Copy, Debug, Eq, PartialEq, Structural)]
pub enum Primitive {
    U8,
    U16,
    U32,
    U64,
    U128,
    I8,
    I16,
    I32,
    I64,
    I128,
    F16,
    F32,
    F64,
    F128,
    U1,
    Bool,
}

/// A reference to a namespace: the root, or the path of child indices that
/// leads from the root to a sub-namespace.
#[derive(Debug)]
pub enum NamespaceKind {
    GlobalNamespace,
    SubNamespace(Vec<usize>),
}

/// A reference to a scope: a namespace, or a function declaration named by
/// its enclosing namespace path and its index among that namespace's
/// declarations.
#[derive(Debug)]
pub enum ScopeKind {
    GlobalNamespace,
    SubNamespace(Vec<usize>),
    Function(Vec<usize>, usize),
}

/// The mathematical form of a scope reference.
pub enum SpecScopeKind {
    GlobalNamespace,
    SubNamespace(Seq<usize>),
    Function(Seq<usize>, usize),
}

impl View for ScopeKind {
    type V = SpecScopeKind;

    open spec fn view(&self) -> SpecScopeKind {
        match self {
            ScopeKind::GlobalNamespace => SpecScopeKind::GlobalNamespace,
            ScopeKind::SubNamespace(p) => SpecScopeKind::SubNamespace(p@),
            ScopeKind::Function(p, i) => SpecScopeKind::Function(p@, *i),
        }
    }
}

impl ScopeKind {
    /// A structural copy of this scope reference.
    pub fn dup(&self) -> (r: ScopeKind)
        ensures
            r@ == self@,
    {
        match self {
            ScopeKind::GlobalNamespace => ScopeKind::GlobalNamespace,
            ScopeKind::SubNamespace(p) => ScopeKind::SubNamespace(dup_path(p)),
            ScopeKind::Function(p, i) => ScopeKind::Function(dup_path(p), *i),
        }
    }
}

/// Copy a namespace path.
fn dup_path(p: &Vec<usize>) -> (r: Vec<usize>)
    ensures
        r@ == p@,
{
    let mut r: Vec<usize> = Vec::new();
    let mut i: usize = 0;
    while i < p.len()
        invariant
            i <= p@.len(),
            r@ == p@.take(i as int),
        decreases p@.len() - i,
    {
        r.push(p[i]);
        i = i + 1;
        proof {
            assert(r@ =~= p@.take(i as int));
        }
    }
    proof {
        assert(r@ =~= p@);
    }
    r
}

/// A name site: unresolved it records the scope it was used in (and a
/// reserved qualified path); resolved it names the declaration it binds to,
/// as an index into the declaration list (or parameter list) of `scope`.
#[derive(Debug)]
pub enum IdKind {
    Resolved { declaration: usize, scope: ScopeKind },
    Unresolved { scope_used: ScopeKind, scope_described: Vec<String> },
}

/// The mathematical form of a name site.
pub enum SpecIdKind {
    Resolved { declaration: usize, scope: SpecScopeKind },
    Unresolved { scope_used: SpecScopeKind, scope_described: Seq<Seq<char>> },
}

impl View for IdKind {
    type V = SpecIdKind;

    open spec fn view(&self) -> SpecIdKind {
        match self {
            IdKind::Resolved { declaration, scope } => SpecIdKind::Resolved {
                declaration: *declaration,
                scope: scope@,
            },
            IdKind::Unresolved { scope_used, scope_described } => SpecIdKind::Unresolved {
                scope_used: scope_used@,
                scope_described: scope_described@.map(|i: int, s: String| s@),
            },
        }
    }
}

/// An identifier occurrence awaiting or carrying its binding.
#[derive(Debug)]
pub struct ScopedId {
    pub name: String,
    pub id_kind: IdKind,
}

/// The mathematical form of an identifier occurrence.
pub struct SpecScopedId {
    pub name: Seq<char>,
    pub id_kind: SpecIdKind,
}

impl View for ScopedId {
    type V = SpecScopedId;

    open spec fn view(&self) -> SpecScopedId {
        SpecScopedId { name: self.name@, id_kind: self.id_kind@ }
    }
}

/// An expression: this core's leaf set. Numeric literals keep their source
/// text; they are parsed only at emission time.
#[derive(Debug)]
pub enum Expression {
    Identifier(Box<ScopedId>),
    Integer(String),
    Decimal(String),
    Bool(bool),
}

/// How a declaration binds its value: no value yet (parameters), an assigned
/// expression, or a function body expression.
#[derive(Debug)]
pub enum DeclKind {
    EmptyDecl,
    AssignDecl(Box<Expression>),
    FuncDecl(Box<Expression>),
}

/// The type attached to a declaration.
#[derive(Debug)]
pub enum TypeKind {
    Inferred,
    Identifier(Box<ScopedId>),
    FuncType(Box<FuncType>),
    Primitive(Primitive),
}

/// A function type: its parameters and its return type.
#[derive(Debug)]
pub struct FuncType {
    pub arguments: Vec<Argument>,
    pub return_type: Box<TypeKind>,
}

/// A function parameter, wrapping one `let` declaration with no body.
#[derive(Debug)]
pub struct Argument {
    pub decl: Declaration,
}

/// A named value or function declaration.
#[derive(Debug)]
pub struct ValueDecl {
    pub public: bool,
    pub decl_keyword: DeclKeyword,
    pub identifier: String,
    pub type_kind: TypeKind,
    pub decl_kind: DeclKind,
}

/// A declaration; value declarations are the only variant in this core.
#[derive(Debug)]
pub enum Declaration {
    ValueDecl(Box<ValueDecl>),
}

/// The value declaration inside a declaration.
pub open spec fn decl_value(d: Declaration) -> ValueDecl {
    match d {
        Declaration::ValueDecl(v) => *v,
    }
}

/// The identifier a declaration binds.
pub open spec fn decl_ident(d: Declaration) -> Seq<char> {
    decl_value(d).identifier@
}

/// The root of the namespace tree.
#[derive(Debug)]
pub struct GlobalNamespace {
    pub declarations: Vec<Declaration>,
    pub subnamespaces: Vec<SubNamespace>,
}

/// A named namespace below the root. Its `full_name` is the dot-join of the
/// names from the root down to it; the root contributes the empty string, so
/// top-level namespaces carry a leading dot.
#[derive(Debug)]
pub struct SubNamespace {
    pub name: String,
    pub full_name: String,
    pub declarations: Vec<Declaration>,
    pub subnamespaces: Vec<SubNamespace>,
}

impl GlobalNamespace {
    /// An empty root namespace.
    pub fn new() -> (g: GlobalNamespace)
        ensures
            g.declarations@.len() == 0,
            g.subnamespaces@.len() == 0,
    {
        GlobalNamespace { declarations: Vec::new(), subnamespaces: Vec::new() }
    }
}

impl SubNamespace {
    /// An empty namespace under the parent with the given full name; its own
    /// full name extends the parent's by a dot and its name.
    pub fn new(name: String, parent_full_name: &str) -> (ns: SubNamespace)
        ensures
            ns.name@ == name@,
            ns.full_name@ == parent_full_name@ + "."@ + name@,
            ns.declarations@.len() == 0,
            ns.subnamespaces@.len() == 0,
    {
        let mut full_name = parent_full_name.to_owned();
        full_name.append(".");
        full_name.append(name.as_str());
        SubNamespace { name, full_name, declarations: Vec::new(), subnamespaces: Vec::new() }
    }
}

// ---------------------------------------------------------------------------
// Identifier lookup within one scope.
// ---------------------------------------------------------------------------

/// Whether some declaration in `decls` binds `name`.
pub open spec fn decls_contain(decls: Seq<Declaration>, name: Seq<char>) -> bool {
    exists|i: int| 0 <= i < decls.len() && decl_ident(#[trigger] decls[i]) == name
}

/// Whether `i` is the first index in `decls` whose declaration binds `name`.
pub open spec fn is_first_match(decls: Seq<Declaration>, name: Seq<char>, i: int) -> bool {
    &&& 0 <= i < decls.len()
    &&& decl_ident(decls[i]) == name
    &&& forall|j: int| 0 <= j < i ==> decl_ident(#[trigger] decls[j]) != name
}

/// Find the first declaration binding `name`, if any.
pub(crate) fn find_decl(decls: &Vec<Declaration>, name: &String) -> (r: Option<usize>)
    ensures
        (match r {
            Some(i) => is_first_match(decls@, name@, i as int),
            None => !decls_contain(decls@, name@),
        }),
{
    let mut i: usize = 0;
    while i < decls.len()
        invariant
            i <= decls@.len(),
            forall|j: int| 0 <= j < i ==> decl_ident(#[trigger] decls@[j]) != name@,
        decreases decls@.len() - i,
    {
        let Declaration::ValueDecl(v) = &decls[i];
        if v.identifier == *name {
            return Some(i);
        }
        i = i + 1;
    }
    None
}

/// The parameter declarations of a function type.
pub open spec fn func_args(f: FuncType) -> Seq<Declaration> {
    f.arguments@.map(|i: int, a: Argument| a.decl)
}

/// Find the first parameter of `f` binding `name`, if any.
pub(crate) fn find_arg(f: &FuncType, name: &String) -> (r: Option<usize>)
    ensures
        (match r {
            Some(i) => is_first_match(func_args(*f), name@, i as int),
            None => !decls_contain(func_args(*f), name@),
        }),
{
    let mut i: usize = 0;
    while i < f.arguments.len()
        invariant
            i <= f.arguments@.len(),
            forall|j: int| 0 <= j < i ==> decl_ident(#[trigger] func_args(*f)[j]) != name@,
        decreases f.arguments@.len() - i,
    {
        let Declaration::ValueDecl(v) = &f.arguments[i].decl;
        proof {
            assert(func_args(*f)[i as int] == f.arguments@[i as int].decl);
        }
        if v.identifier == *name {
            return Some(i);
        }
        i = i + 1;
    }
    None
}

} // verus!

verus! {

// ---------------------------------------------------------------------------
// Namespace well-formedness: full names along the tree.
// ---------------------------------------------------------------------------

/// The identifiers bound by a list of declarations, in order.
pub open spec fn idents_of(decls: Seq<Declaration>) -> Seq<Seq<char>> {
    decls.map(|i: int, d: Declaration| decl_ident(d))
}

/// A sub-namespace is well formed under a parent full name when its own full
/// name extends it by a dot and its name, recursively for its children.
pub open spec fn wf_sub(ns: SubNamespace, parent_full: Seq<char>) -> bool
    decreases ns,
{
    &&& ns.full_name@ == parent_full + "."@ + ns.name@
    &&& wf_subs(ns.subnamespaces@, ns.full_name@)
}

pub open spec fn wf_subs(subs: Seq<SubNamespace>, parent_full: Seq<char>) -> bool
    decreases subs,
{
    if subs.len() == 0 {
        true
    } else {
        wf_sub(subs[0], parent_full) && wf_subs(subs.drop_first(), parent_full)
    }
}

/// The root is well formed when all its sub-namespaces are, under the empty
/// full name.
pub open spec fn wf_global(g: GlobalNamespace) -> bool {
    wf_subs(g.subnamespaces@, Seq::empty())
}

pub proof fn lemma_wf_subs_index(subs: Seq<SubNamespace>, parent_full: Seq<char>, i: int)
    requires
        wf_subs(subs, parent_full),
        0 <= i < subs.len(),
    ensures
        wf_sub(subs[i], parent_full),
    decreases subs,
{
    if i > 0 {
        lemma_wf_subs_index(subs.drop_first(), parent_full, i - 1);
    }
}

// ---------------------------------------------------------------------------
// Paths: locating a namespace from the root.
// ---------------------------------------------------------------------------

pub open spec fn valid_in(subs: Seq<SubNamespace>, path: Seq<usize>) -> bool
    decreases path.len(),
{
    &&& path.len() > 0
    &&& path[0] < subs.len()
    &&& (path.len() == 1 || valid_in(subs[path[0] as int].subnamespaces@, path.drop_first()))
}

pub open spec fn ns_in(subs: Seq<SubNamespace>, path: Seq<usize>) -> SubNamespace
    recommends
        valid_in(subs, path),
    decreases path.len(),
{
    if path.len() <= 1 {
        subs[path[0] as int]
    } else {
        ns_in(subs[path[0] as int].subnamespaces@, path.drop_first())
    }
}

/// The names along `path`, outermost first.
pub open spec fn names_in(subs: Seq<SubNamespace>, path: Seq<usize>) -> Seq<Seq<char>>
    recommends
        valid_in(subs, path),
    decreases path.len(),
{
    if path.len() <= 1 {
        seq![subs[path[0] as int].name@]
    } else {
        seq![subs[path[0] as int].name@] + names_in(
            subs[path[0] as int].subnamespaces@,
            path.drop_first(),
        )
    }
}

/// Whether `path` leads from the root to a sub-namespace of `g`.
pub open spec fn valid_ns_path(g: GlobalNamespace, path: Seq<usize>) -> bool {
    valid_in(g.subnamespaces@, path)
}

/// The sub-namespace of `g` that `path` leads to.
pub open spec fn ns_at(g: GlobalNamespace, path: Seq<usize>) -> SubNamespace {
    ns_in(g.subnamespaces@, path)
}

/// The dot-join of a list of names: empty for no names, and each name
/// preceded by a dot otherwise (the root contributes the empty string).
pub open spec fn dot_join(names: Seq<Seq<char>>) -> Seq<char>
    decreases names.len(),
{
    if names.len() == 0 {
        Seq::empty()
    } else {
        dot_join(names.drop_last()) + "."@ + names.last()
    }
}

proof fn lemma_full_name_in(
    subs: Seq<SubNamespace>,
    parent_full: Seq<char>,
    path: Seq<usize>,
    acc: Seq<Seq<char>>,
)
    requires
        wf_subs(subs, parent_full),
        valid_in(subs, path),
        parent_full == dot_join(acc),
    ensures
        ns_in(subs, path).full_name@ == dot_join(acc + names_in(subs, path)),
    decreases path.len(),
{
    let first = subs[path[0] as int];
    lemma_wf_subs_index(subs, parent_full, path[0] as int);
    let acc2 = acc.push(first.name@);
    assert(acc2.drop_last() =~= acc);
    assert(dot_join(acc2) == first.full_name@);
    if path.len() <= 1 {
        assert(acc + names_in(subs, path) =~= acc2);
    } else {
        lemma_full_name_in(first.subnamespaces@, first.full_name@, path.drop_first(), acc2);
        assert(acc + names_in(subs, path) =~= acc2 + names_in(
            first.subnamespaces@,
            path.drop_first(),
        ));
    }
}

/// For every sub-namespace, its full name equals the dot-join of the names
/// from the root down to and including it, the root contributing the empty
/// string.
pub proof fn lemma_full_name_is_dot_join(g: GlobalNamespace, path: Seq<usize>)
    requires
        wf_global(g),
        valid_ns_path(g, path),
    ensures
        ns_at(g, path).full_name@ == dot_join(names_in(g.subnamespaces@, path)),
{
    assert(Seq::<char>::empty() =~= dot_join(Seq::<Seq<char>>::empty()));
    lemma_full_name_in(
        g.subnamespaces@,
        Seq::empty(),
        path,
        Seq::empty(),
    );
    assert(Seq::<Seq<char>>::empty() + names_in(g.subnamespaces@, path) =~= names_in(
        g.subnamespaces@,
        path,
    ));
}

// ---------------------------------------------------------------------------
// Scopes: full names, uniqueness checks, and local resolution.
// ---------------------------------------------------------------------------

/// The identifiers inspected by a sub-namespace's uniqueness check: its own
/// declarations and, descending, those of all its sub-namespaces.
pub open spec fn subtree_idents(ns: SubNamespace) -> Seq<Seq<char>>
    decreases ns,
{
    idents_of(ns.declarations@) + subs_idents(ns.subnamespaces@)
}

pub open spec fn subs_idents(subs: Seq<SubNamespace>) -> Seq<Seq<char>>
    decreases subs,
{
    if subs.len() == 0 {
        Seq::empty()
    } else {
        subtree_idents(subs[0]) + subs_idents(subs.drop_first())
    }
}

/// What any scope answers: its full name, whether a declaration's identifier
/// is new to it, and resolution of an identifier against its direct
/// declarations.
pub trait Scope {
    /// The scope's full name.
    spec fn spec_full_name(&self) -> Seq<char>;

    /// The declarations directly contained in the scope.
    spec fn local_decls(&self) -> Seq<Declaration>;

    /// The identifiers the uniqueness check inspects.
    spec fn checked_idents(&self) -> Seq<Seq<char>>;

    fn get_full_name(&self) -> (r: String)
        ensures
            r@ == self.spec_full_name(),
    ;

    /// True when no declaration this scope checks binds the same identifier
    /// as `declaration`.
    fn is_unique_identifier(&self, declaration: &Declaration) -> (r: bool)
        ensures
            r == !self.checked_idents().contains(decl_ident(*declaration)),
    ;

    /// Try to bind `identifier` against this scope's direct declarations; on
    /// the first match, rewrite it to `Resolved` pointing at that declaration
    /// within `here`.
    fn resolve_identifier(&self, identifier: &mut ScopedId, here: ScopeKind) -> (r: bool)
        ensures
            r == decls_contain(self.local_decls(), old(identifier)@.name),
            r ==> (exists|i: usize|
                is_first_match(self.local_decls(), old(identifier)@.name, i as int) && final(identifier)@.id_kind == (SpecIdKind::Resolved { declaration: i, scope: here@ })),
            final(identifier)@.name == old(identifier)@.name,
            !r ==> final(identifier)@.id_kind == old(identifier)@.id_kind,
    ;
}

/// An identifier is among `idents_of(decls)` exactly when some declaration
/// binds it.
pub proof fn lemma_idents_contain_pub(decls: Seq<Declaration>, name: Seq<char>)
    ensures
        idents_of(decls).contains(name) == decls_contain(decls, name),
{
    if decls_contain(decls, name) {
        let i = choose|i: int| 0 <= i < decls.len() && decl_ident(#[trigger] decls[i]) == name;
        assert(idents_of(decls)[i] == name);
    }
    if idents_of(decls).contains(name) {
        let i = choose|i: int| 0 <= i < idents_of(decls).len() && idents_of(decls)[i] == name;
        assert(decl_ident(decls[i]) == name);
    }
}

impl Scope for GlobalNamespace {
    open spec fn spec_full_name(&self) -> Seq<char> {
        Seq::empty()
    }

    open spec fn local_decls(&self) -> Seq<Declaration> {
        self.declarations@
    }

    open spec fn checked_idents(&self) -> Seq<Seq<char>> {
        idents_of(self.declarations@)
    }

    fn get_full_name(&self) -> (r: String) {
        String::new()
    }

    fn is_unique_identifier(&self, declaration: &Declaration) -> (r: bool) {
        let Declaration::ValueDecl(v) = declaration;
        let found = find_decl(&self.declarations, &v.identifier);
        proof {
            lemma_idents_contain_pub(self.declarations@, v.identifier@);
        }
        found.is_none()
    }

    fn resolve_identifier(&self, identifier: &mut ScopedId, here: ScopeKind) -> (r: bool) {
        match find_decl(&self.declarations, &identifier.name) {
            Some(i) => {
                identifier.id_kind = IdKind::Resolved { declaration: i, scope: here };
                true
            },
            None => false,
        }
    }
}

impl Scope for SubNamespace {
    open spec fn spec_full_name(&self) -> Seq<char> {
        self.full_name@
    }

    open spec fn local_decls(&self) -> Seq<Declaration> {
        self.declarations@
    }

    open spec fn checked_idents(&self) -> Seq<Seq<char>> {
        subtree_idents(*self)
    }

    fn get_full_name(&self) -> (r: String) {
        self.full_name.clone()
    }

    fn is_unique_identifier(&self, declaration: &Declaration) -> (r: bool)
        decreases *self,
    {
        let Declaration::ValueDecl(v) = declaration;
        let found = find_decl(&self.declarations, &v.identifier);
        proof {
            lemma_idents_contain_pub(self.declarations@, v.identifier@);
        }
        if found.is_some() {
            proof {
                lemma_contains_concat(
                    idents_of(self.declarations@),
                    subs_idents(self.subnamespaces@),
                    v.identifier@,
                );
            }
            return false;
        }
        let mut i: usize = 0;
        while i < self.subnamespaces.len()
            invariant
                i <= self.subnamespaces@.len(),
                !idents_of(self.declarations@).contains(decl_ident(*declaration)),
                !subs_idents(self.subnamespaces@.take(i as int)).contains(
                    decl_ident(*declaration),
                ),
                decl_ident(*declaration) == v.identifier@,
            decreases self.subnamespaces@.len() - i,
        {
            proof {
                lemma_subs_idents_take(self.subnamespaces@, i as int);
            }
            if !self.subnamespaces[i].is_unique_identifier(declaration) {
                proof {
                    lemma_subs_idents_member(self.subnamespaces@, i as int, decl_ident(*declaration));
                    lemma_contains_concat(
                        idents_of(self.declarations@),
                        subs_idents(self.subnamespaces@),
                        decl_ident(*declaration),
                    );
                }
                return false;
            }
            i = i + 1;
            proof {
                lemma_subs_idents_take(self.subnamespaces@, i as int - 1);
                lemma_contains_concat(
                    subs_idents(self.subnamespaces@.take(i as int - 1)),
                    subtree_idents(self.subnamespaces@[i as int - 1]),
                    decl_ident(*declaration),
                );
                assert(subs_idents(self.subnamespaces@.take(i as int)) =~= subs_idents(
                    self.subnamespaces@.take(i as int - 1),
                ) + subtree_idents(self.subnamespaces@[i as int - 1]));
            }
        }
        proof {
            assert(self.subnamespaces@.take(i as int) =~= self.subnamespaces@);
            lemma_contains_concat(
                idents_of(self.declarations@),
                subs_idents(self.subnamespaces@),
                decl_ident(*declaration),
            );
        }
        true
    }

    fn resolve_identifier(&self, identifier: &mut ScopedId, here: ScopeKind) -> (r: bool) {
        match find_decl(&self.declarations, &identifier.name) {
            Some(i) => {
                identifier.id_kind = IdKind::Resolved { declaration: i, scope: here };
                true
            },
            None => false,
        }
    }
}

/// The declaration wrapping a value declaration.
pub open spec fn decl_of_value(v: ValueDecl) -> Declaration {
    Declaration::ValueDecl(Box::new(v))
}

proof fn lemma_contains_concat(a: Seq<Seq<char>>, b: Seq<Seq<char>>, x: Seq<char>)
    ensures
        (a + b).contains(x) == (a.contains(x) || b.contains(x)),
{
    if a.contains(x) {
        let i = choose|i: int| 0 <= i < a.len() && a[i] == x;
        assert((a + b)[i] == x);
    }
    if b.contains(x) {
        let i = choose|i: int| 0 <= i < b.len() && b[i] == x;
        assert((a + b)[a.len() + i] == x);
    }
    if (a + b).contains(x) {
        let i = choose|i: int| 0 <= i < (a + b).len() && (a + b)[i] == x;
        if i < a.len() {
            assert(a[i] == x);
        } else {
            assert(b[i - a.len()] == x);
        }
    }
}

/// `subs_idents` over a prefix extends one subtree at a time.
proof fn lemma_subs_idents_take(subs: Seq<SubNamespace>, i: int)
    requires
        0 <= i < subs.len(),
    ensures
        subs_idents(subs.take(i + 1)) =~= subs_idents(subs.take(i)) + subtree_idents(subs[i]),
    decreases i,
{
    if i == 0 {
        assert(subs.take(1)[0] == subs[0]);
        assert(subs.take(1).drop_first() =~= Seq::<SubNamespace>::empty());
        assert(subs.take(0) =~= Seq::<SubNamespace>::empty());
        assert(subs_idents(Seq::<SubNamespace>::empty()) =~= Seq::<Seq<char>>::empty());
        assert(subs_idents(subs.take(1)) =~= subtree_idents(subs.take(1)[0]) + subs_idents(
            subs.take(1).drop_first(),
        ));
        assert(subs_idents(subs.take(1)) =~= subtree_idents(subs[0]));
        assert(subs_idents(subs.take(0)) =~= Seq::<Seq<char>>::empty());
    } else {
        lemma_subs_idents_take(subs.drop_first(), i - 1);
        assert(subs.take(i + 1)[0] == subs[0]);
        assert(subs.take(i + 1).drop_first() =~= subs.drop_first().take(i));
        assert(subs.take(i).drop_first() =~= subs.drop_first().take(i - 1));
        assert(subs.drop_first()[i - 1] == subs[i]);
    }
}

/// A hit in one subtree is a hit in the whole list.
proof fn lemma_subs_idents_member(subs: Seq<SubNamespace>, i: int, x: Seq<char>)
    requires
        0 <= i < subs.len(),
        subtree_idents(subs[i]).contains(x),
    ensures
        subs_idents(subs).contains(x),
    decreases i,
{
    if i == 0 {
        let j = choose|j: int| 0 <= j < subtree_idents(subs[0]).len() && subtree_idents(subs[0])[j]
            == x;
        assert(subs_idents(subs)[j] == x);
    } else {
        lemma_subs_idents_member(subs.drop_first(), i - 1, x);
        let j = choose|j: int|
            0 <= j < subs_idents(subs.drop_first()).len() && subs_idents(subs.drop_first())[j]
                == x;
        assert(subs_idents(subs)[subtree_idents(subs[0]).len() + j] == x);
    }
}

impl ValueDecl {
    /// True when no parameter of this function binds the same identifier as
    /// `declaration`. Only function declarations act as scopes.
    pub fn is_unique_identifier(&self, declaration: &Declaration) -> (r: bool)
        requires
            self.type_kind is FuncType,
            self.decl_kind is FuncDecl,
        ensures
            (match self.type_kind {
                TypeKind::FuncType(f) => r == !decls_contain(
                    func_args(*f),
                    decl_ident(*declaration),
                ),
                _ => false,
            }),
    {
        let Declaration::ValueDecl(v) = declaration;
        match &self.type_kind {
            TypeKind::FuncType(f) => find_arg(f, &v.identifier).is_none(),
            _ => vstd::pervasive::unreached(),
        }
    }

    /// Try to bind `identifier` against this function's parameters; on the
    /// first match, rewrite it to `Resolved` pointing at that parameter
    /// within `here`.
    pub fn resolve_identifier(&self, identifier: &mut ScopedId, here: ScopeKind) -> (r: bool)
        requires
            self.type_kind is FuncType,
        ensures
            (match self.type_kind {
                TypeKind::FuncType(f) => {
                    &&& r == decls_contain(func_args(*f), old(identifier)@.name)
                    &&& (r ==> (exists|i: usize|
                        is_first_match(func_args(*f), old(identifier)@.name, i as int) && final(identifier)@.id_kind == (SpecIdKind::Resolved { declaration: i, scope: here@ })))
                },
                _ => false,
            }),
            final(identifier)@.name == old(identifier)@.name,
            !r ==> final(identifier)@.id_kind == old(identifier)@.id_kind,
    {
        match &self.type_kind {
            TypeKind::FuncType(f) => {
                match find_arg(f, &identifier.name) {
                    Some(i) => {
                        identifier.id_kind = IdKind::Resolved { declaration: i, scope: here };
                        true
                    },
                    None => false,
                }
            },
            _ => vstd::pervasive::unreached(),
        }
    }
}

} // verus!

verus! {

// ---------------------------------------------------------------------------
// Whole-tree walks.
// ---------------------------------------------------------------------------

/// The full names in a sub-namespace's subtree, preorder.
pub open spec fn sub_full_name_strings(ns: SubNamespace) -> Seq<String>
    decreases ns,
{
    seq![ns.full_name] + subs_full_name_strings(ns.subnamespaces@)
}

pub open spec fn subs_full_name_strings(subs: Seq<SubNamespace>) -> Seq<String>
    decreases subs,
{
    if subs.len() == 0 {
        Seq::empty()
    } else {
        sub_full_name_strings(subs[0]) + subs_full_name_strings(subs.drop_first())
    }
}

/// Each declaration of a subtree with the full name of its namespace,
/// preorder.
pub open spec fn sub_namespaced_decls(ns: SubNamespace) -> Seq<(String, Declaration)>
    decreases ns,
{
    ns.declarations@.map(|i: int, d: Declaration| (ns.full_name, d)) + subs_namespaced_decls(
        ns.subnamespaces@,
    )
}

pub open spec fn subs_namespaced_decls(subs: Seq<SubNamespace>) -> Seq<(String, Declaration)>
    decreases subs,
{
    if subs.len() == 0 {
        Seq::empty()
    } else {
        sub_namespaced_decls(subs[0]) + subs_namespaced_decls(subs.drop_first())
    }
}

impl SubNamespace {
    /// Append the full names of this namespace and, preorder, of all its
    /// sub-namespaces.
    pub fn add_all_subnamespace_full_names(&self, vector: &mut Vec<String>)
        ensures
            final(vector)@ =~= old(vector)@ + sub_full_name_strings(*self),
        decreases *self,
    {
        vector.push(self.full_name.clone());
        let ghost total = old(vector)@ + sub_full_name_strings(*self);
        proof {
            assert(self.subnamespaces@.skip(0) =~= self.subnamespaces@);
            assert(total =~= vector@ + subs_full_name_strings(self.subnamespaces@));
        }
        let mut i: usize = 0;
        while i < self.subnamespaces.len()
            invariant
                i <= self.subnamespaces@.len(),
                total =~= vector@ + subs_full_name_strings(self.subnamespaces@.skip(i as int)),
            decreases self.subnamespaces@.len() - i,
        {
            proof {
                let rest = self.subnamespaces@.skip(i as int);
                assert(rest[0] == self.subnamespaces@[i as int]);
                assert(rest.drop_first() =~= self.subnamespaces@.skip(i as int + 1));
            }
            self.subnamespaces[i].add_all_subnamespace_full_names(vector);
            i = i + 1;
        }
        proof {
            assert(self.subnamespaces@.skip(i as int) =~= Seq::<SubNamespace>::empty());
            assert(total =~= vector@);
        }
    }

    /// Append each declaration of this subtree with the full name of the
    /// namespace that holds it, preorder; the tree is consumed.
    #[verifier::loop_isolation(false)]
    pub fn add_all_namespaced_declarations(self, vector: &mut Vec<(String, Declaration)>)
        ensures
            final(vector)@ =~= old(vector)@ + sub_namespaced_decls(self),
        decreases self,
    {
        let ghost me = self;
        let ghost base0 = old(vector)@;
        let ghost total = old(vector)@ + sub_namespaced_decls(self);
        let SubNamespace { name: _, full_name, mut declarations, mut subnamespaces } = self;
        let ghost decls0 = declarations@;
        let ghost pairs = decls0.map(|i: int, d: Declaration| (me.full_name, d));
        while declarations.len() > 0
            invariant
                declarations@.len() <= decls0.len(),
                declarations@ =~= decls0.skip(decls0.len() - declarations@.len()),
                full_name == me.full_name,
                vector@ =~= base0 + pairs.take(decls0.len() - declarations@.len()),
            decreases declarations@.len(),
        {
            let ghost k = decls0.len() - declarations@.len();
            proof {
                assert(declarations@.len() > 0);
                assert(0 <= k < decls0.len());
                assert(declarations@ =~= decls0.skip(k as int));
                assert(declarations@[0] == decls0[k as int]);
            }
            let d = declarations.remove(0);
            vector.push((full_name.clone(), d));
            proof {
                assert(pairs.len() == decls0.len());
                assert(d == decls0[k]);
                assert(pairs.take(k + 1) =~= pairs.take(k).push(pairs[k]));
                assert(vector@ =~= base0 + pairs.take(k + 1));
                assert(declarations@ =~= decls0.skip(k + 1));
            }
        }
        proof {
            assert(pairs.take(decls0.len() as int) =~= pairs);
        }
        let ghost subs0 = subnamespaces@;
        while subnamespaces.len() > 0
            invariant
                subnamespaces@.len() <= subs0.len(),
                subnamespaces@ =~= subs0.skip(subs0.len() - subnamespaces@.len()),
                subs0 == me.subnamespaces@,
                total =~= vector@ + subs_namespaced_decls(subnamespaces@),
            decreases subnamespaces@.len(),
        {
            let ghost k = subs0.len() - subnamespaces@.len();
            let ns = subnamespaces.remove(0);
            proof {
                assert(ns == subs0[k]);
                assert(ns == me.subnamespaces@[k as int]);
                assert(subs_namespaced_decls(subs0.skip(k)) == sub_namespaced_decls(subs0[k])
                    + subs_namespaced_decls(subs0.skip(k).drop_first()));
                assert(subs0.skip(k).drop_first() =~= subs0.skip(k + 1));
            }
            ns.add_all_namespaced_declarations(vector);
            proof {
                assert(subnamespaces@ =~= subs0.skip(k + 1));
            }
        }
        proof {
            assert(subs_namespaced_decls(subnamespaces@) =~= Seq::<(String, Declaration)>::empty());
            assert(total =~= vector@);
        }
    }
}

/// A parsed and resolved source unit: its name and its declaration tree.
#[derive(Debug)]
pub struct Program {
    pub name: String,
    pub ast: GlobalNamespace,
}

impl Program {
    /// The full names of every namespace: the root's empty name first, then
    /// each sub-namespace's, preorder.
    pub fn get_all_namespace_full_names(&self) -> (r: Vec<String>)
        ensures
            r@.len() == 1 + subs_full_name_strings(self.ast.subnamespaces@).len(),
            r@[0]@ == Seq::<char>::empty(),
            r@.drop_first() =~= subs_full_name_strings(self.ast.subnamespaces@),
    {
        let mut vector: Vec<String> = Vec::new();
        vector.push(String::new());
        let ghost base = vector@;
        let mut i: usize = 0;
        while i < self.ast.subnamespaces.len()
            invariant
                i <= self.ast.subnamespaces@.len(),
                base.len() == 1,
                base[0]@ == Seq::<char>::empty(),
                vector@ =~= base + subs_full_name_strings(self.ast.subnamespaces@.take(i as int)),
            decreases self.ast.subnamespaces@.len() - i,
        {
            let ghost pre = vector@;
            self.ast.subnamespaces[i].add_all_subnamespace_full_names(&mut vector);
            proof {
                lemma_subs_full_name_strings_take(self.ast.subnamespaces@, i as int);
            }
            i = i + 1;
        }
        proof {
            assert(self.ast.subnamespaces@.take(i as int) =~= self.ast.subnamespaces@);
        }
        vector
    }

    /// Every declaration with the full name of the namespace that holds it:
    /// the root's declarations first, then each subtree's, preorder. The
    /// program is consumed.
    #[verifier::loop_isolation(false)]
    pub fn get_all_namespaced_declarations(self) -> (r: Vec<(String, Declaration)>)
        ensures
            ({
                let roots = self.ast.declarations@;
                let rest = subs_namespaced_decls(self.ast.subnamespaces@);
                &&& r@.len() == roots.len() + rest.len()
                &&& (forall|i: int|
                    0 <= i < roots.len() ==> (#[trigger] r@[i]).0@ == Seq::<char>::empty()
                        && r@[i].1 == roots[i])
                &&& r@.skip(roots.len() as int) =~= rest
            }),
    {
        let ghost me = self;
        let Program { name: _, ast } = self;
        let GlobalNamespace { mut declarations, mut subnamespaces } = ast;
        let mut vector: Vec<(String, Declaration)> = Vec::new();
        let ghost decls0 = declarations@;
        while declarations.len() > 0
            invariant
                declarations@.len() <= decls0.len(),
                declarations@ =~= decls0.skip(decls0.len() - declarations@.len()),
                vector@.len() == decls0.len() - declarations@.len(),
                forall|i: int|
                    0 <= i < vector@.len() ==> (#[trigger] vector@[i]).0@ == Seq::<char>::empty()
                        && vector@[i].1 == decls0[i],
            decreases declarations@.len(),
        {
            let ghost k = decls0.len() - declarations@.len();
            let d = declarations.remove(0);
            vector.push((String::new(), d));
            proof {
                assert(d == decls0[k]);
                assert(declarations@ =~= decls0.skip(k + 1));
            }
        }
        let ghost base = vector@;
        let ghost subs0 = subnamespaces@;
        while subnamespaces.len() > 0
            invariant
                subnamespaces@.len() <= subs0.len(),
                subnamespaces@ =~= subs0.skip(subs0.len() - subnamespaces@.len()),
                subs0 == me.ast.subnamespaces@,
                base + subs_namespaced_decls(subs0) =~= vector@ + subs_namespaced_decls(
                    subnamespaces@,
                ),
            decreases subnamespaces@.len(),
        {
            let ghost k = subs0.len() - subnamespaces@.len();
            let ns = subnamespaces.remove(0);
            proof {
                assert(ns == subs0[k]);
                assert(ns == me.ast.subnamespaces@[k as int]);
                assert(subs_namespaced_decls(subs0.skip(k)) == sub_namespaced_decls(subs0[k])
                    + subs_namespaced_decls(subs0.skip(k).drop_first()));
                assert(subs0.skip(k).drop_first() =~= subs0.skip(k + 1));
            }
            ns.add_all_namespaced_declarations(&mut vector);
            proof {
                assert(subnamespaces@ =~= subs0.skip(k + 1));
            }
        }
        proof {
            assert(subs_namespaced_decls(subnamespaces@) =~= Seq::<(String, Declaration)>::empty());
            assert(base + subs_namespaced_decls(subs0) =~= vector@);
            assert(vector@.skip(base.len() as int) =~= subs_namespaced_decls(subs0));
        }
        vector
    }
}

proof fn lemma_subs_full_name_strings_take(subs: Seq<SubNamespace>, i: int)
    requires
        0 <= i < subs.len(),
    ensures
        subs_full_name_strings(subs.take(i + 1)) =~= subs_full_name_strings(subs.take(i))
            + sub_full_name_strings(subs[i]),
    decreases i,
{
    if i == 0 {
        assert(subs.take(1)[0] == subs[0]);
        assert(subs.take(1).drop_first() =~= Seq::<SubNamespace>::empty());
        assert(subs.take(0) =~= Seq::<SubNamespace>::empty());
        assert(subs_full_name_strings(Seq::<SubNamespace>::empty()) =~= Seq::<String>::empty());
        assert(subs_full_name_strings(subs.take(1)) =~= sub_full_name_strings(subs[0]));
    } else {
        lemma_subs_full_name_strings_take(subs.drop_first(), i - 1);
        assert(subs.take(i + 1)[0] == subs[0]);
        assert(subs.take(i + 1).drop_first() =~= subs.drop_first().take(i));
        assert(subs.take(i).drop_first() =~= subs.drop_first().take(i - 1));
        assert(subs.drop_first()[i - 1] == subs[i]);
    }
}

// ---------------------------------------------------------------------------
// Type identity.
// ---------------------------------------------------------------------------

/// A type may be compared once it carries no `Inferred` and any identifier in
/// comparing position is resolved.
pub open spec fn comparable(t: TypeKind) -> bool
    decreases t,
{
    match t {
        TypeKind::Inferred => false,
        TypeKind::Identifier(id) => id.id_kind is Resolved,
        TypeKind::FuncType(f) => comparable(*f.return_type),
        TypeKind::Primitive(_) => true,
    }
}

/// Whether two types are the same named type. Primitives compare by identity
/// (`U1` and `Bool` stay distinct); two resolved identifiers never compare
/// equal, because value declarations do not yet denote types; so function
/// types agree only on their return types and an empty parameter list.
pub open spec fn same_type(a: TypeKind, b: TypeKind) -> bool
    decreases a,
{
    match a {
        TypeKind::Inferred => false,
        TypeKind::Identifier(_) => false,
        TypeKind::FuncType(f) => match b {
            TypeKind::FuncType(g) => same_type(*f.return_type, *g.return_type)
                && f.arguments@.len() == g.arguments@.len() && f.arguments@.len() == 0,
            _ => false,
        },
        TypeKind::Primitive(p) => match b {
            TypeKind::Primitive(q) => p == q,
            _ => false,
        },
    }
}

impl Declaration {
    /// Whether two declarations denote the same named type: never, since
    /// value declarations are the only variant and do not yet denote types.
    pub fn is_same_type(&self, other: &Declaration) -> (r: bool)
        ensures
            r == false,
    {
        match self {
            Declaration::ValueDecl(_) => false,
        }
    }
}

impl FuncType {
    /// Whether two function types are the same type.
    pub fn is_same_type(&self, other: &FuncType) -> (r: bool)
        requires
            comparable(*self.return_type),
            comparable(*other.return_type),
        ensures
            r == (same_type(*self.return_type, *other.return_type) && self.arguments@.len()
                == other.arguments@.len() && self.arguments@.len() == 0),
        decreases *self,
    {
        if !self.return_type.is_same_type(&other.return_type) {
            return false;
        }
        if self.arguments.len() != other.arguments.len() {
            return false;
        }
        let mut index: usize = 0;
        while index < self.arguments.len()
            invariant
                self.arguments@.len() == other.arguments@.len(),
                index == 0,
            decreases self.arguments@.len() - index,
        {
            if !self.arguments[index].decl.is_same_type(&other.arguments[index].decl) {
                return false;
            }
            index = index + 1;
        }
        true
    }
}

impl TypeKind {
    /// Whether two types are the same named type.
    pub fn is_same_type(&self, other: &TypeKind) -> (r: bool)
        requires
            comparable(*self),
            comparable(*other),
        ensures
            r == same_type(*self, *other),
        decreases *self,
    {
        match self {
            TypeKind::Inferred => vstd::pervasive::unreached(),
            TypeKind::Identifier(_) => {
                match other {
                    TypeKind::Identifier(_) => {
                        // Both are resolved identifiers; the declarations they
                        // name never compare equal as types.
                        false
                    },
                    _ => false,
                }
            },
            TypeKind::FuncType(f) => {
                match other {
                    TypeKind::FuncType(g) => f.is_same_type(g),
                    _ => false,
                }
            },
            TypeKind::Primitive(p) => {
                match other {
                    TypeKind::Primitive(q) => *p == *q,
                    _ => false,
                }
            },
        }
    }
}

} // verus!
