//! The WARP signature data that the matcher and the containers work on: GUIDs, symbols,
//! types, function constraints and functions.
use vstd::prelude::*;

verus! {

/// GUID of a WARP function, the 128 bits of its UUID.
#[derive(Debug, PartialEq, Eq, Hash, Structural)]
pub struct FunctionGUID {
    pub guid: u128,
}

/// GUID of a WARP type, the 128 bits of its UUID.
#[derive(Debug, PartialEq, Eq, Hash, Structural)]
pub struct TypeGUID {
    pub guid: u128,
}

impl Clone for FunctionGUID {
    fn clone(&self) -> (r: Self)
        ensures
            r == *self,
    {
        FunctionGUID { guid: self.guid }
    }
}

impl Copy for FunctionGUID {

}

impl Clone for TypeGUID {
    fn clone(&self) -> (r: Self)
        ensures
            r == *self,
    {
        TypeGUID { guid: self.guid }
    }
}

impl Copy for TypeGUID {

}

/// What a symbol names.
#[derive(Debug, PartialEq, Eq, Hash, Structural)]
pub enum SymbolClass {
    Function,
    Data,
    Bare,
}

impl Clone for SymbolClass {
    fn clone(&self) -> (r: Self)
        ensures
            r == *self,
    {
        match self {
            SymbolClass::Function => SymbolClass::Function,
            SymbolClass::Data => SymbolClass::Data,
            SymbolClass::Bare => SymbolClass::Bare,
        }
    }
}

impl Copy for SymbolClass {

}

/// A symbol of a WARP function: its name, its modifier bits and its class.
#[derive(Debug, PartialEq, Eq, Hash)]
pub struct Symbol {
    pub name: String,
    pub modifiers: u8,
    pub class: SymbolClass,
}

/// A symbol as a mathematical value.
pub struct SymbolView {
    pub name: Seq<char>,
    pub modifiers: u8,
    pub class: SymbolClass,
}

impl View for Symbol {
    type V = SymbolView;

    open spec fn view(&self) -> SymbolView {
        SymbolView { name: self.name@, modifiers: self.modifiers, class: self.class }
    }
}

impl Clone for Symbol {
    fn clone(&self) -> (r: Self)
        ensures
            r == *self,
    {
        Symbol { name: self.name.clone(), modifiers: self.modifiers, class: self.class }
    }
}

impl Symbol {
    /// Equality of the two symbols' values.
    pub fn same_as(&self, other: &Symbol) -> (r: bool)
        ensures
            r == (self@ == other@),
    {
        self.name == other.name && self.modifiers == other.modifiers && self.class
            == other.class
    }
}

/// A constraint on a function: a function (by GUID, by symbol, or both) found at `offset`
/// from it.
#[derive(Debug, PartialEq, Eq, Hash)]
pub struct FunctionConstraint {
    pub guid: Option<FunctionGUID>,
    pub symbol: Option<Symbol>,
    pub offset: i64,
}

/// A function constraint as a mathematical value.
pub struct FunctionConstraintView {
    pub guid: Option<FunctionGUID>,
    pub symbol: Option<SymbolView>,
    pub offset: i64,
}

pub open spec fn option_symbol_view(s: Option<Symbol>) -> Option<SymbolView> {
    match s {
        Some(s) => Some(s@),
        None => None,
    }
}

impl View for FunctionConstraint {
    type V = FunctionConstraintView;

    open spec fn view(&self) -> FunctionConstraintView {
        FunctionConstraintView {
            guid: self.guid,
            symbol: option_symbol_view(self.symbol),
            offset: self.offset,
        }
    }
}

pub fn clone_option_symbol(s: &Option<Symbol>) -> (r: Option<Symbol>)
    ensures
        r == *s,
{
    match s {
        Some(s) => Some(s.clone()),
        None => None,
    }
}

impl Clone for FunctionConstraint {
    fn clone(&self) -> (r: Self)
        ensures
            r == *self,
    {
        FunctionConstraint {
            guid: self.guid,
            symbol: clone_option_symbol(&self.symbol),
            offset: self.offset,
        }
    }
}

impl FunctionConstraint {
    /// Equality of the two constraints' values.
    pub fn same_as(&self, other: &FunctionConstraint) -> (r: bool)
        ensures
            r == (self@ == other@),
    {
        let same_guid = match (&self.guid, &other.guid) {
            (Some(a), Some(b)) => a.guid == b.guid,
            (None, None) => true,
            _ => false,
        };
        let same_symbol = match (&self.symbol, &other.symbol) {
            (Some(a), Some(b)) => a.same_as(b),
            (None, None) => true,
            _ => false,
        };
        same_guid && same_symbol && self.offset == other.offset
    }
}

/// The views of a sequence of constraints.
pub open spec fn constraint_views(cs: Seq<FunctionConstraint>) -> Seq<FunctionConstraintView> {
    cs.map_values(|c: FunctionConstraint| c@)
}

/// Copies a vector of constraints.
pub fn clone_constraints(cs: &Vec<FunctionConstraint>) -> (r: Vec<FunctionConstraint>)
    ensures
        r@ == cs@,
{
    let mut r: Vec<FunctionConstraint> = Vec::new();
    let mut i: usize = 0;
    while i < cs.len()
        invariant
            i <= cs@.len(),
            r@ == cs@.take(i as int),
        decreases cs@.len() - i,
    {
        r.push(cs[i].clone());
        proof {
            assert(cs@.take(i as int).push(cs@[i as int]) =~= cs@.take(i + 1));
        }
        i = i + 1;
    }
    proof {
        assert(cs@.take(cs@.len() as int) =~= cs@);
    }
    r
}

/// Does `cs` hold a constraint with the same value as `c`?
pub fn contains_constraint(cs: &Vec<FunctionConstraint>, c: &FunctionConstraint) -> (r: bool)
    ensures
        r == constraint_views(cs@).contains(c@),
{
    let mut i: usize = 0;
    while i < cs.len()
        invariant
            i <= cs@.len(),
            forall|j: int| 0 <= j < i ==> cs@[j]@ != c@,
        decreases cs@.len() - i,
    {
        if cs[i].same_as(c) {
            proof {
                assert(constraint_views(cs@)[i as int] == c@);
            }
            return true;
        }
        i = i + 1;
    }
    proof {
        if constraint_views(cs@).contains(c@) {
            let j = choose|j: int| 0 <= j < cs@.len() && constraint_views(cs@)[j] == c@;
            assert(cs@[j]@ == c@);
        }
    }
    false
}

/// Adds `c` to the set `cs` (held without duplicate values) unless a constraint with its value is
/// already there.
pub fn insert_constraint(cs: &mut Vec<FunctionConstraint>, c: FunctionConstraint)
    requires
        constraint_views(old(cs)@).no_duplicates(),
    ensures
        constraint_views(final(cs)@).no_duplicates(),
        constraint_views(final(cs)@).to_set() == constraint_views(old(cs)@).to_set().insert(c@),
{
    let ghost before = constraint_views(cs@);
    if !contains_constraint(cs, &c) {
        let ghost cv = c@;
        cs.push(c);
        proof {
            assert(constraint_views(cs@) =~= before.push(cv));
            assert(constraint_views(cs@).to_set() =~= before.to_set().insert(cv)) by {
                assert forall|x| constraint_views(cs@).to_set().contains(x) <==> before.to_set().insert(cv).contains(x) by {
                    if x == cv {
                        assert(constraint_views(cs@)[before.len() as int] == cv);
                    } else if before.contains(x) {
                        let j = choose|j: int| 0 <= j < before.len() && before[j] == x;
                        assert(constraint_views(cs@)[j] == x);
                    }
                }
            }
        }
    } else {
        proof {
            assert(before.to_set().insert(c@) =~= before.to_set());
        }
    }
}

/// A WARP type: an optional name and its class.
#[derive(Debug, PartialEq, Eq, Hash)]
pub struct Type {
    pub name: Option<String>,
    pub class: TypeClass,
}

/// The class of a WARP type, with the types it is built from.
#[derive(Debug, PartialEq, Eq, Hash)]
pub enum TypeClass {
    Void,
    Boolean(u16),
    Integer(u16),
    Character(u16),
    Float(u16),
    /// A pointer to the child type.
    Pointer(Box<Type>),
    /// An array of the member type, with its length.
    Array(Box<Type>, u64),
    /// A structure, with the types of its members.
    Structure(Vec<Type>),
    /// An enumeration, with its member type.
    Enumeration(Box<Type>),
    /// A union, with the types of its members.
    Union(Vec<Type>),
    /// A function type, with the types of its out members and of its in members.
    Function(Vec<Type>, Vec<Type>),
    /// A reference to another type by GUID, by name, or both.
    Referrer(Option<TypeGUID>, Option<String>),
}

/// A type as a mathematical value.
pub struct TypeView {
    pub name: Option<Seq<char>>,
    pub class: TypeClassView,
}

/// A type class as a mathematical value.
pub enum TypeClassView {
    Void,
    Boolean(u16),
    Integer(u16),
    Character(u16),
    Float(u16),
    Pointer(Box<TypeView>),
    Array(Box<TypeView>, u64),
    Structure(Seq<TypeView>),
    Enumeration(Box<TypeView>),
    Union(Seq<TypeView>),
    Function(Seq<TypeView>, Seq<TypeView>),
    Referrer(Option<TypeGUID>, Option<Seq<char>>),
}

pub open spec fn option_string_view(s: Option<String>) -> Option<Seq<char>> {
    match s {
        Some(s) => Some(s@),
        None => None,
    }
}

pub open spec fn type_view(t: Type) -> TypeView
    decreases t,
{
    TypeView {
        name: option_string_view(t.name),
        class: match t.class {
            TypeClass::Void => TypeClassView::Void,
            TypeClass::Boolean(w) => TypeClassView::Boolean(w),
            TypeClass::Integer(w) => TypeClassView::Integer(w),
            TypeClass::Character(w) => TypeClassView::Character(w),
            TypeClass::Float(w) => TypeClassView::Float(w),
            TypeClass::Pointer(c) => TypeClassView::Pointer(Box::new(type_view(*c))),
            TypeClass::Array(c, n) => TypeClassView::Array(Box::new(type_view(*c)), n),
            TypeClass::Structure(ms) => TypeClassView::Structure(types_view(ms@)),
            TypeClass::Enumeration(c) => TypeClassView::Enumeration(Box::new(type_view(*c))),
            TypeClass::Union(ms) => TypeClassView::Union(types_view(ms@)),
            TypeClass::Function(outs, ins) => TypeClassView::Function(
                types_view(outs@),
                types_view(ins@),
            ),
            TypeClass::Referrer(g, n) => TypeClassView::Referrer(g, option_string_view(n)),
        },
    }
}

pub open spec fn types_view(ts: Seq<Type>) -> Seq<TypeView>
    decreases ts,
{
    if ts.len() == 0 {
        Seq::empty()
    } else {
        types_view(ts.drop_last()).push(type_view(ts.last()))
    }
}

impl View for Type {
    type V = TypeView;

    open spec fn view(&self) -> TypeView {
        type_view(*self)
    }
}

pub fn clone_option_string(s: &Option<String>) -> (r: Option<String>)
    ensures
        r == *s,
{
    match s {
        Some(s) => Some(s.clone()),
        None => None,
    }
}

fn clone_types(ts: &Vec<Type>) -> (r: Vec<Type>)
    ensures
        types_view(r@) == types_view(ts@),
    decreases ts@,
{
    let mut r: Vec<Type> = Vec::new();
    let mut i: usize = 0;
    while i < ts.len()
        invariant
            i <= ts@.len(),
            types_view(r@) == types_view(ts@.take(i as int)),
        decreases ts@.len() - i,
    {
        proof {
            assert(decreases_to!(ts@ => ts@[i as int]));
        }
        let ghost before = r@;
        r.push(clone_type(&ts[i]));
        proof {
            assert(r@.drop_last() =~= before);
            assert(ts@.take(i + 1).drop_last() =~= ts@.take(i as int));
        }
        i = i + 1;
    }
    proof {
        assert(ts@.take(ts@.len() as int) =~= ts@);
    }
    r
}

fn clone_type(t: &Type) -> (r: Type)
    ensures
        r@ == t@,
    decreases t,
{
    let class = match &t.class {
        TypeClass::Void => TypeClass::Void,
        TypeClass::Boolean(w) => TypeClass::Boolean(*w),
        TypeClass::Integer(w) => TypeClass::Integer(*w),
        TypeClass::Character(w) => TypeClass::Character(*w),
        TypeClass::Float(w) => TypeClass::Float(*w),
        TypeClass::Pointer(c) => TypeClass::Pointer(Box::new(clone_type(c))),
        TypeClass::Array(c, n) => TypeClass::Array(Box::new(clone_type(c)), *n),
        TypeClass::Structure(ms) => TypeClass::Structure(clone_types(ms)),
        TypeClass::Enumeration(c) => TypeClass::Enumeration(Box::new(clone_type(c))),
        TypeClass::Union(ms) => TypeClass::Union(clone_types(ms)),
        TypeClass::Function(outs, ins) => TypeClass::Function(clone_types(outs), clone_types(ins)),
        TypeClass::Referrer(g, n) => TypeClass::Referrer(*g, clone_option_string(n)),
    };
    Type { name: clone_option_string(&t.name), class }
}

impl Clone for Type {
    fn clone(&self) -> (r: Self)
        ensures
            r@ == self@,
    {
        clone_type(self)
    }
}

/// The constraints recorded with a WARP function, each kind held as a set without duplicate
/// values.
#[derive(Debug, PartialEq, Eq, Default)]
pub struct FunctionConstraints {
    pub call_sites: Vec<FunctionConstraint>,
    pub adjacent: Vec<FunctionConstraint>,
    pub caller_sites: Vec<FunctionConstraint>,
}

/// Function constraints as a mathematical value.
pub struct FunctionConstraintsView {
    pub call_sites: Seq<FunctionConstraintView>,
    pub adjacent: Seq<FunctionConstraintView>,
    pub caller_sites: Seq<FunctionConstraintView>,
}

impl View for FunctionConstraints {
    type V = FunctionConstraintsView;

    open spec fn view(&self) -> FunctionConstraintsView {
        FunctionConstraintsView {
            call_sites: constraint_views(self.call_sites@),
            adjacent: constraint_views(self.adjacent@),
            caller_sites: constraint_views(self.caller_sites@),
        }
    }
}

impl Clone for FunctionConstraints {
    fn clone(&self) -> (r: Self)
        ensures
            r@ == self@,
    {
        FunctionConstraints {
            call_sites: clone_constraints(&self.call_sites),
            adjacent: clone_constraints(&self.adjacent),
            caller_sites: clone_constraints(&self.caller_sites),
        }
    }
}

/// A WARP function: its GUID, its symbol, its type and its constraints.
#[derive(Debug, PartialEq, Eq)]
pub struct Function {
    pub guid: FunctionGUID,
    pub symbol: Symbol,
    pub ty: Type,
    pub constraints: FunctionConstraints,
}

/// A function as a mathematical value.
pub struct FunctionView {
    pub guid: FunctionGUID,
    pub symbol: SymbolView,
    pub ty: TypeView,
    pub constraints: FunctionConstraintsView,
}

impl View for Function {
    type V = FunctionView;

    open spec fn view(&self) -> FunctionView {
        FunctionView {
            guid: self.guid,
            symbol: self.symbol@,
            ty: self.ty@,
            constraints: self.constraints@,
        }
    }
}

impl Clone for Function {
    fn clone(&self) -> (r: Self)
        ensures
            r@ == self@,
    {
        Function {
            guid: self.guid,
            symbol: self.symbol.clone(),
            ty: self.ty.clone(),
            constraints: self.constraints.clone(),
        }
    }
}

/// Copies a function, if there is one.
pub fn clone_option_function(f: &Option<Function>) -> (r: Option<Function>)
    ensures
        match (r, *f) {
            (Some(a), Some(b)) => a@ == b@,
            (None, None) => true,
            _ => false,
        },
{
    match f {
        Some(f) => Some(f.clone()),
        None => None,
    }
}

/// The views of a sequence of functions.
pub open spec fn function_views(fs: Seq<Function>) -> Seq<FunctionView> {
    fs.map_values(|f: Function| f@)
}

/// Copies a vector of functions.
pub fn clone_functions(fs: &Vec<Function>) -> (r: Vec<Function>)
    ensures
        function_views(r@) == function_views(fs@),
{
    let mut r: Vec<Function> = Vec::new();
    let mut i: usize = 0;
    while i < fs.len()
        invariant
            i <= fs@.len(),
            r@.len() == i,
            function_views(r@) == function_views(fs@.take(i as int)),
        decreases fs@.len() - i,
    {
        let ghost before = r@;
        let f = fs[i].clone();
        assert(f@ == fs@[i as int]@);
        r.push(f);
        proof {
            assert(r@.len() == i + 1);
            assert(r@[i as int]@ == fs@[i as int]@);
            assert forall|j: int| 0 <= j < r@.len() implies function_views(r@)[j]
                == function_views(fs@.take(i + 1))[j] by {
                if j < i {
                    assert(function_views(before)[j] == function_views(fs@.take(i as int))[j]);
                }
            }
            assert(function_views(r@) =~= function_views(fs@.take(i + 1)));
        }
        i = i + 1;
    }
    proof {
        assert(fs@.take(fs@.len() as int) =~= fs@);
    }
    r
}

/// A type together with its GUID, as a signature file holds it.
#[derive(Debug, PartialEq, Eq)]
pub struct ComputedType {
    pub guid: TypeGUID,
    pub ty: Type,
}

/// The contents of a signature file: functions and types.
#[derive(Debug, PartialEq, Eq, Default)]
pub struct Data {
    pub functions: Vec<Function>,
    pub types: Vec<ComputedType>,
}

} // verus!
