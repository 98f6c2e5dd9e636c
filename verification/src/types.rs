//! The type algebra, the binding table for polymorphic integer variables,
//! and the unifier.

use vstd::prelude::*;

verus! {

/// Index of a binding cell inside [`TypeBindings`].
#[derive(Clone, Copy, PartialEq, Eq, Structural, Debug)]
pub struct TypeVariableId(pub usize);

/// Handle to a struct definition held by the interner.
#[derive(Clone, Copy, PartialEq, Eq, Structural, Debug)]
pub struct StructId(pub usize);

/// Visibility of a value inside the circuit.
#[derive(Clone, Copy, PartialEq, Eq, Structural, Debug)]
pub enum FieldElementType {
    Private,
    Public,
    Constant,
}

#[derive(Clone, Copy, PartialEq, Eq, Structural, Debug)]
pub enum Signedness {
    Signed,
    Unsigned,
}

/// Size of an array type: fixed by a literal, or open as produced by a
/// `for` expression.
#[derive(Clone, Copy, PartialEq, Eq, Structural, Debug)]
pub enum ArraySize {
    Fixed(u128),
    Variable,
}

/// The type of an expression.
///
/// `PolymorphicInteger` is the one inference variable: the not yet chosen
/// type of an integer literal, an index into the binding table.
/// `Constant` is a pseudo-type used as the right-hand side of `unify` to
/// say "must be known at compile time"; it is never the type of an
/// expression.  `Error` and `Unspecified` absorb all constraints so that
/// one fault does not cascade.
#[derive(PartialEq, Eq, Debug)]
pub enum Type {
    FieldElement(FieldElementType),
    Array(FieldElementType, ArraySize, Box<Type>),
    Integer(FieldElementType, Signedness, u32),
    PolymorphicInteger(TypeVariableId),
    Bool,
    Unit,
    Struct(FieldElementType, StructId),
    Tuple(TypeList),
    Error,
    Unspecified,
    Constant,
}

/// The element types of a tuple, kept as a list so that the whole type
/// algebra is a plain recursive datatype.
#[derive(PartialEq, Eq, Debug)]
pub enum TypeList {
    Nil,
    Cons(Box<Type>, Box<TypeList>),
}

/// Structural size of a type, used as a termination measure.
pub open spec fn tsize(t: Type) -> nat
    decreases t,
{
    match t {
        Type::Array(_, _, elem) => 1 + tsize(*elem),
        Type::Tuple(elems) => 1 + lsize(elems),
        _ => 1,
    }
}

/// Structural size of a list of types.
pub open spec fn lsize(l: TypeList) -> nat
    decreases l,
{
    match l {
        TypeList::Nil => 1,
        TypeList::Cons(head, tail) => 1 + tsize(*head) + lsize(*tail),
    }
}

/// Number of elements in a list of types.
pub open spec fn llen(l: TypeList) -> nat
    decreases l,
{
    match l {
        TypeList::Nil => 0,
        TypeList::Cons(_, tail) => 1 + llen(*tail),
    }
}

impl Type {
    /// A deep copy, byte for byte the same type.
    pub fn duplicate(&self) -> (r: Type)
        ensures
            r == *self,
        decreases *self,
    {
        match self {
            Type::FieldElement(vis) => Type::FieldElement(*vis),
            Type::Array(vis, size, elem) => Type::Array(*vis, *size, Box::new(elem.duplicate())),
            Type::Integer(vis, sign, width) => Type::Integer(*vis, *sign, *width),
            Type::PolymorphicInteger(v) => Type::PolymorphicInteger(*v),
            Type::Bool => Type::Bool,
            Type::Unit => Type::Unit,
            Type::Struct(vis, id) => Type::Struct(*vis, *id),
            Type::Tuple(elems) => Type::Tuple(elems.duplicate()),
            Type::Error => Type::Error,
            Type::Unspecified => Type::Unspecified,
            Type::Constant => Type::Constant,
        }
    }
}

impl TypeList {
    /// A deep copy, element for element the same list.
    pub fn duplicate(&self) -> (r: TypeList)
        ensures
            r == *self,
        decreases *self,
    {
        match self {
            TypeList::Nil => TypeList::Nil,
            TypeList::Cons(head, tail) => TypeList::Cons(
                Box::new(head.duplicate()),
                Box::new(tail.duplicate()),
            ),
        }
    }
}

/// The list of types holding exactly the elements of `s`, in order.
pub open spec fn tlist_of(s: Seq<Type>) -> TypeList
    decreases s.len(),
{
    if s.len() == 0 {
        TypeList::Nil
    } else {
        TypeList::Cons(Box::new(s[0]), Box::new(tlist_of(s.drop_first())))
    }
}

/// The element of a list of types at position `i`.
pub open spec fn lnth(l: TypeList, i: nat) -> Type
    decreases l,
{
    match l {
        TypeList::Nil => Type::Error,
        TypeList::Cons(head, tail) => if i == 0 {
            *head
        } else {
            lnth(*tail, (i - 1) as nat)
        },
    }
}

/// Build the list of types over the elements of `v` from `start` on.
pub fn tlist_from_vec(v: &Vec<Type>, start: usize) -> (r: TypeList)
    requires
        start <= v@.len(),
    ensures
        r == tlist_of(v@.skip(start as int)),
    decreases v@.len() - start,
{
    if start == v.len() {
        proof {
            assert(v@.skip(start as int) =~= Seq::<Type>::empty());
        }
        TypeList::Nil
    } else {
        let head = v[start].duplicate();
        let tail = tlist_from_vec(v, start + 1);
        proof {
            assert(v@.skip(start as int).drop_first() =~= v@.skip(start as int + 1));
            assert(v@.skip(start as int)[0] == v@[start as int]);
        }
        TypeList::Cons(Box::new(head), Box::new(tail))
    }
}

/// Element-wise validity carries over to the built list.
pub proof fn lemma_tlist_of_valid(s: Seq<Type>, np: nat, ns: nat)
    requires
        forall|j: int| 0 <= j < s.len() ==> poly_valid(#[trigger] s[j], np) && struct_valid(s[j], ns),
    ensures
        poly_valid_list(tlist_of(s), np),
        struct_valid_list(tlist_of(s), ns),
    decreases s.len(),
{
    if s.len() > 0 {
        lemma_tlist_of_valid(s.drop_first(), np, ns);
    }
}

/// The element at a position of a list of types, when the position is
/// inside it.
pub fn tlist_nth(l: &TypeList, i: usize) -> (r: Option<Type>)
    ensures
        i < llen(*l) ==> r == Some(lnth(*l, i as nat)),
        i >= llen(*l) ==> r is None,
    decreases *l,
{
    match l {
        TypeList::Nil => None,
        TypeList::Cons(head, tail) => {
            if i == 0 {
                Some(head.duplicate())
            } else {
                tlist_nth(tail, i - 1)
            }
        },
    }
}

/// An element of a valid list of types is valid.
pub proof fn lemma_lnth_valid(l: TypeList, i: nat, np: nat, ns: nat)
    requires
        poly_valid_list(l, np),
        struct_valid_list(l, ns),
        i < llen(l),
    ensures
        poly_valid(lnth(l, i), np),
        struct_valid(lnth(l, i), ns),
    decreases l,
{
    match l {
        TypeList::Cons(head, tail) => {
            if i > 0 {
                lemma_lnth_valid(*tail, (i - 1) as nat, np, ns);
            }
        },
        TypeList::Nil => {},
    }
}

/// One cell of the binding table: still free, or bound to a type.
#[derive(PartialEq, Eq, Debug)]
pub enum TypeBinding {
    Unbound(TypeVariableId),
    Bound(Type),
}

/// What a bound cell may hold: a leaf integer-like type, `Bool` (an
/// operand rule may bind a free variable to it), or an alias of a cell
/// created strictly earlier.  The last point makes following a chain of
/// aliases terminate.
pub open spec fn bound_target_ok(t: Type, v: nat) -> bool {
    match t {
        Type::Integer(_, _, _) => true,
        Type::FieldElement(_) => true,
        Type::Bool => true,
        Type::PolymorphicInteger(w) => w.0 < v,
        _ => false,
    }
}

/// Well-formedness of the binding table: cell `v` records its own id when
/// unbound, and holds an acceptable target when bound.
pub open spec fn bindings_wf(bs: Seq<TypeBinding>) -> bool {
    forall|v: int|
        0 <= v < bs.len() ==> match #[trigger] bs[v] {
            TypeBinding::Unbound(id) => id.0 == v,
            TypeBinding::Bound(t) => bound_target_ok(t, v as nat),
        }
}

/// Rank used to show that following alias chains terminates.
pub open spec fn poly_rank(t: Type) -> nat {
    match t {
        Type::PolymorphicInteger(v) => (v.0 + 1) as nat,
        _ => 0,
    }
}

/// Follow the binding table from `t` until a type that is not a bound
/// variable: the representative of `t` under the current bindings.
pub open spec fn resolve(bs: Seq<TypeBinding>, t: Type) -> Type
    decreases poly_rank(t),
        when bindings_wf(bs)
{
    match t {
        Type::PolymorphicInteger(v) => if v.0 < bs.len() {
            match bs[v.0 as int] {
                TypeBinding::Bound(u) => match u {
                    Type::PolymorphicInteger(_) => resolve(bs, u),
                    _ => u,
                },
                TypeBinding::Unbound(_) => t,
            }
        } else {
            t
        },
        _ => t,
    }
}

/// The representative of a type is never a bound variable: it is either
/// not a variable at all, or a variable whose cell is still unbound.
pub open spec fn is_resolved(bs: Seq<TypeBinding>, t: Type) -> bool {
    match t {
        Type::PolymorphicInteger(v) => v.0 < bs.len() && bs[v.0 as int] is Unbound,
        _ => true,
    }
}

pub proof fn lemma_resolve_resolved(bs: Seq<TypeBinding>, t: Type)
    requires
        bindings_wf(bs),
        poly_valid(t, bs.len()),
    ensures
        is_resolved(bs, resolve(bs, t)),
        resolve(bs, resolve(bs, t)) == resolve(bs, t),
        poly_valid(resolve(bs, t), bs.len()),
    decreases poly_rank(t),
{
    match t {
        Type::PolymorphicInteger(v) => {
            if v.0 < bs.len() {
                match bs[v.0 as int] {
                    TypeBinding::Bound(u) => {
                        assert(bound_target_ok(u, v.0 as nat));
                        match u {
                            Type::PolymorphicInteger(_) => {
                                lemma_resolve_resolved(bs, u);
                            },
                            _ => {},
                        }
                    },
                    TypeBinding::Unbound(_) => {},
                }
            }
        },
        _ => {},
    }
}

/// All variables mentioned at the top of `t` lie inside a table of `n`
/// cells.  (Variables occur only at leaves of the algebra, so the top
/// level and the structural positions are checked separately.)
pub open spec fn poly_valid(t: Type, n: nat) -> bool
    decreases t,
{
    match t {
        Type::PolymorphicInteger(v) => v.0 < n,
        Type::Array(_, _, elem) => poly_valid(*elem, n),
        Type::Tuple(elems) => poly_valid_list(elems, n),
        _ => true,
    }
}

pub open spec fn poly_valid_list(l: TypeList, n: nat) -> bool
    decreases l,
{
    match l {
        TypeList::Nil => true,
        TypeList::Cons(head, tail) => poly_valid(*head, n) && poly_valid_list(*tail, n),
    }
}

/// All struct handles mentioned in `t` lie inside a table of `n`
/// definitions.
pub open spec fn struct_valid(t: Type, n: nat) -> bool
    decreases t,
{
    match t {
        Type::Struct(_, sid) => sid.0 < n,
        Type::Array(_, _, elem) => struct_valid(*elem, n),
        Type::Tuple(elems) => struct_valid_list(elems, n),
        _ => true,
    }
}

pub open spec fn struct_valid_list(l: TypeList, n: nat) -> bool
    decreases l,
{
    match l {
        TypeList::Nil => true,
        TypeList::Cons(head, tail) => struct_valid(*head, n) && struct_valid_list(*tail, n),
    }
}

/// The types an unbound variable may be bound to by unification: the
/// integer-like leaves.  Booleans are deliberately not here: under
/// unification a literal like `1` never takes the type `bool`.
pub open spec fn bindable_to_int(t: Type) -> bool {
    match t {
        Type::Integer(_, _, _) => true,
        Type::FieldElement(_) => true,
        _ => false,
    }
}

/// The types an unbound variable may be bound to inside a binary
/// operation: the integer-like leaves and `Bool`.  The operand rules
/// are deliberately wider than the unifier here.
pub open spec fn bindable_in_op(t: Type) -> bool {
    match t {
        Type::Integer(_, _, _) => true,
        Type::FieldElement(_) => true,
        Type::Bool => true,
        _ => false,
    }
}

/// The table of binding cells for polymorphic integer variables.  Cells
/// are created unbound and move to bound exactly once; they are shared by
/// every type that mentions their index.
#[derive(Debug)]
pub struct TypeBindings {
    pub table: Vec<TypeBinding>,
}

impl TypeBindings {
    pub open spec fn wf(&self) -> bool {
        bindings_wf(self.table@)
    }

    pub fn new() -> (r: TypeBindings)
        ensures
            r.table@.len() == 0,
            r.wf(),
    {
        TypeBindings { table: Vec::new() }
    }

    /// Create a fresh unbound cell and return its id.  Ids increase
    /// monotonically.
    pub fn fresh(&mut self) -> (v: TypeVariableId)
        requires
            old(self).wf(),
        ensures
            final(self).wf(),
            v.0 == old(self).table@.len(),
            final(self).table@ == old(self).table@.push(TypeBinding::Unbound(v)),
    {
        let v = TypeVariableId(self.table.len());
        self.table.push(TypeBinding::Unbound(v));
        v
    }

    /// Bind the unbound cell `v` to `t`.  This is the only way a cell
    /// changes, and a bound cell is never written again.
    pub fn bind(&mut self, v: TypeVariableId, t: Type)
        requires
            old(self).wf(),
            v.0 < old(self).table@.len(),
            old(self).table@[v.0 as int] is Unbound,
            bound_target_ok(t, v.0 as nat),
        ensures
            final(self).wf(),
            final(self).table@ == old(self).table@.update(v.0 as int, TypeBinding::Bound(t)),
    {
        self.table.set(v.0, TypeBinding::Bound(t));
    }

    /// Follow alias chains from `t` to its representative.
    pub fn resolve_type(&self, t: &Type) -> (r: Type)
        requires
            self.wf(),
        ensures
            r == resolve(self.table@, *t),
        decreases poly_rank(*t),
    {
        match t {
            Type::PolymorphicInteger(v) => {
                if v.0 < self.table.len() {
                    let cell = &self.table[v.0];
                    match cell {
                        TypeBinding::Bound(u) => {
                            proof {
                                assert(bound_target_ok(*u, v.0 as nat));
                            }
                            match u {
                                Type::PolymorphicInteger(_) => self.resolve_type(u),
                                _ => u.duplicate(),
                            }
                        },
                        TypeBinding::Unbound(_) => t.duplicate(),
                    }
                } else {
                    t.duplicate()
                }
            },
            _ => t.duplicate(),
        }
    }
}

/// A bound variable resolves through integer-like targets only, so the
/// representative of a variable is never an array, tuple, struct or
/// sentinel.
pub proof fn lemma_resolve_not_structural(bs: Seq<TypeBinding>, t: Type)
    requires
        bindings_wf(bs),
    ensures
        t is PolymorphicInteger ==> (resolve(bs, t) is PolymorphicInteger || resolve(bs, t)
            is Integer || resolve(bs, t) is FieldElement || resolve(bs, t) is Bool),
        !(t is PolymorphicInteger) ==> resolve(bs, t) == t,
    decreases poly_rank(t),
{
    match t {
        Type::PolymorphicInteger(v) => {
            if v.0 < bs.len() {
                match bs[v.0 as int] {
                    TypeBinding::Bound(u) => {
                        assert(bound_target_ok(u, v.0 as nat));
                        match u {
                            Type::PolymorphicInteger(_) => {
                                lemma_resolve_not_structural(bs, u);
                            },
                            _ => {},
                        }
                    },
                    TypeBinding::Unbound(_) => {},
                }
            }
        },
        _ => {},
    }
}

/// Validity of a type survives growing the binding table.
pub proof fn lemma_poly_valid_grow(t: Type, n: nat, m: nat)
    requires
        poly_valid(t, n),
        n <= m,
    ensures
        poly_valid(t, m),
    decreases t,
{
    match t {
        Type::Array(_, _, elem) => {
            lemma_poly_valid_grow(*elem, n, m);
        },
        Type::Tuple(elems) => {
            lemma_poly_valid_list_grow(elems, n, m);
        },
        _ => {},
    }
}

pub proof fn lemma_poly_valid_list_grow(l: TypeList, n: nat, m: nat)
    requires
        poly_valid_list(l, n),
        n <= m,
    ensures
        poly_valid_list(l, m),
    decreases l,
{
    match l {
        TypeList::Cons(head, tail) => {
            lemma_poly_valid_grow(*head, n, m);
            lemma_poly_valid_list_grow(*tail, n, m);
        },
        TypeList::Nil => {},
    }
}

/// Outcome of holding `x` to the `Constant` sentinel: `x` must already be
/// compile-time known, or be a free variable, which is then bound to a
/// constant field element.
pub open spec fn spec_unify_constant(bs: Seq<TypeBinding>, x: Type) -> (bool, Seq<TypeBinding>) {
    match resolve(bs, x) {
        Type::FieldElement(vis) => (vis == FieldElementType::Constant, bs),
        Type::Integer(vis, _, _) => (vis == FieldElementType::Constant, bs),
        Type::PolymorphicInteger(v) => (
            true,
            bs.update(v.0 as int, TypeBinding::Bound(Type::FieldElement(FieldElementType::Constant))),
        ),
        Type::Constant => (true, bs),
        _ => (false, bs),
    }
}

/// The equality constraint of the unifier: whether the two types unify,
/// and the binding table afterwards.
///
/// `Error` and `Unspecified` absorb every constraint.  The `Constant`
/// sentinel accepts exactly the compile-time-known types.  A free
/// variable binds to the other side when that side is integer-like; two
/// free variables alias, the younger cell pointing at the older.  Arrays
/// recurse on matching sizes and element types, tuples element by
/// element, structs compare their definition handle, and everything else
/// compares structurally, visibility included.
pub open spec fn spec_unify(bs: Seq<TypeBinding>, a: Type, b: Type) -> (bool, Seq<TypeBinding>)
    decreases tsize(a) + tsize(b),
        when bindings_wf(bs) && poly_valid(a, bs.len()) && poly_valid(b, bs.len())
        via spec_unify_dec
{
    if a is Error || a is Unspecified || b is Error || b is Unspecified {
        (true, bs)
    } else if b is Constant {
        spec_unify_constant(bs, a)
    } else if a is Constant {
        spec_unify_constant(bs, b)
    } else {
        match (resolve(bs, a), resolve(bs, b)) {
            (Type::PolymorphicInteger(v), Type::PolymorphicInteger(u)) => if v == u {
                (true, bs)
            } else if u.0 < v.0 {
                (true, bs.update(v.0 as int, TypeBinding::Bound(Type::PolymorphicInteger(u))))
            } else {
                (true, bs.update(u.0 as int, TypeBinding::Bound(Type::PolymorphicInteger(v))))
            },
            (Type::PolymorphicInteger(v), r) => if bindable_to_int(r) {
                (true, bs.update(v.0 as int, TypeBinding::Bound(r)))
            } else {
                (false, bs)
            },
            (l, Type::PolymorphicInteger(u)) => if bindable_to_int(l) {
                (true, bs.update(u.0 as int, TypeBinding::Bound(l)))
            } else {
                (false, bs)
            },
            (Type::Array(_, s1, e1), Type::Array(_, s2, e2)) => if s1 == s2 {
                spec_unify(bs, *e1, *e2)
            } else {
                (false, bs)
            },
            (Type::Tuple(x), Type::Tuple(y)) => spec_unify_list(bs, x, y),
            (Type::Struct(_, d1), Type::Struct(_, d2)) => (d1 == d2, bs),
            (l, r) => (l == r, bs),
        }
    }
}

/// Element-wise unification of two tuple shapes, threading the binding
/// table left to right and stopping at the first mismatch.
pub open spec fn spec_unify_list(bs: Seq<TypeBinding>, x: TypeList, y: TypeList) -> (
    bool,
    Seq<TypeBinding>,
)
    decreases lsize(x) + lsize(y),
        when bindings_wf(bs) && poly_valid_list(x, bs.len()) && poly_valid_list(y, bs.len())
{
    match (x, y) {
        (TypeList::Nil, TypeList::Nil) => (true, bs),
        (TypeList::Cons(h1, t1), TypeList::Cons(h2, t2)) => {
            let (ok, bs1) = spec_unify(bs, *h1, *h2);
            if ok {
                spec_unify_list(bs1, *t1, *t2)
            } else {
                (false, bs1)
            }
        },
        _ => (false, bs),
    }
}

#[via_fn]
proof fn spec_unify_dec(bs: Seq<TypeBinding>, a: Type, b: Type) {
    lemma_resolve_not_structural(bs, a);
    lemma_resolve_not_structural(bs, b);
}

/// The directed constraint used at assignment and argument sites: every
/// unifiable pair is accepted, and besides a compile-time constant flows
/// into a slot of the same base type with any visibility, and an array of
/// fixed size flows into an open-size array slot.
pub open spec fn spec_subtype(bs: Seq<TypeBinding>, a: Type, b: Type) -> (bool, Seq<TypeBinding>)
    decreases tsize(a) + tsize(b),
        when bindings_wf(bs) && poly_valid(a, bs.len()) && poly_valid(b, bs.len())
        via spec_subtype_dec
{
    match (resolve(bs, a), resolve(bs, b)) {
        (Type::FieldElement(FieldElementType::Constant), Type::FieldElement(_)) => (true, bs),
        (Type::Integer(FieldElementType::Constant, s, w), Type::Integer(_, s2, w2)) => if s == s2
            && w == w2 {
            (true, bs)
        } else {
            spec_unify(bs, a, b)
        },
        (Type::Array(_, ArraySize::Fixed(_), e1), Type::Array(_, ArraySize::Variable, e2)) => spec_subtype(
            bs,
            *e1,
            *e2,
        ),
        _ => spec_unify(bs, a, b),
    }
}

#[via_fn]
proof fn spec_subtype_dec(bs: Seq<TypeBinding>, a: Type, b: Type) {
    lemma_resolve_not_structural(bs, a);
    lemma_resolve_not_structural(bs, b);
}

/// Outcome of the `Constant` sentinel check on `x`, performing the one
/// permitted binding.
fn unify_with_constant(x: &Type, bindings: &mut TypeBindings) -> (ok: bool)
    requires
        old(bindings).wf(),
        poly_valid(*x, old(bindings).table@.len()),
    ensures
        final(bindings).wf(),
        final(bindings).table@.len() == old(bindings).table@.len(),
        forall|v: int|
            0 <= v < old(bindings).table@.len() && old(bindings).table@[v] is Bound
                ==> final(bindings).table@[v] == old(bindings).table@[v],
        (ok, final(bindings).table@) == spec_unify_constant(old(bindings).table@, *x),
{
    proof {
        lemma_resolve_resolved(bindings.table@, *x);
    }
    let r = bindings.resolve_type(x);
    match r {
        Type::FieldElement(vis) => vis == FieldElementType::Constant,
        Type::Integer(vis, _, _) => vis == FieldElementType::Constant,
        Type::PolymorphicInteger(v) => {
            bindings.bind(v, Type::FieldElement(FieldElementType::Constant));
            true
        },
        Type::Constant => true,
        _ => false,
    }
}

impl Type {
    /// Impose the equality constraint `self == other` on the binding
    /// table.  Returns whether the constraint holds; the caller reports
    /// the mismatch.  The outcome, bindings included, is exactly
    /// [`spec_unify`].
    pub fn unify(&self, other: &Type, bindings: &mut TypeBindings) -> (ok: bool)
        requires
            old(bindings).wf(),
            poly_valid(*self, old(bindings).table@.len()),
            poly_valid(*other, old(bindings).table@.len()),
        ensures
            final(bindings).wf(),
            final(bindings).table@.len() == old(bindings).table@.len(),
            forall|v: int|
                0 <= v < old(bindings).table@.len() && old(bindings).table@[v] is Bound
                    ==> final(bindings).table@[v] == old(bindings).table@[v],
            (ok, final(bindings).table@) == spec_unify(old(bindings).table@, *self, *other),
        decreases tsize(*self) + tsize(*other),
    {
        if matches!(self, Type::Error | Type::Unspecified) || matches!(
            other,
            Type::Error | Type::Unspecified,
        ) {
            return true;
        }
        if matches!(other, Type::Constant) {
            return unify_with_constant(self, bindings);
        }
        if matches!(self, Type::Constant) {
            return unify_with_constant(other, bindings);
        }
        proof {
            lemma_resolve_resolved(bindings.table@, *self);
            lemma_resolve_resolved(bindings.table@, *other);
            lemma_resolve_not_structural(bindings.table@, *self);
            lemma_resolve_not_structural(bindings.table@, *other);
        }
        let l = bindings.resolve_type(self);
        let r = bindings.resolve_type(other);
        match (&l, &r) {
            (Type::PolymorphicInteger(v), Type::PolymorphicInteger(u)) => {
                if v.0 == u.0 {
                    true
                } else if u.0 < v.0 {
                    bindings.bind(*v, Type::PolymorphicInteger(*u));
                    true
                } else {
                    bindings.bind(*u, Type::PolymorphicInteger(*v));
                    true
                }
            },
            (Type::PolymorphicInteger(v), _) => {
                if matches!(r, Type::Integer(..) | Type::FieldElement(_)) {
                    bindings.bind(*v, r.duplicate());
                    true
                } else {
                    false
                }
            },
            (_, Type::PolymorphicInteger(u)) => {
                if matches!(l, Type::Integer(..) | Type::FieldElement(_)) {
                    bindings.bind(*u, l.duplicate());
                    true
                } else {
                    false
                }
            },
            (Type::Array(_, s1, e1), Type::Array(_, s2, e2)) => {
                if *s1 == *s2 {
                    e1.unify(e2, bindings)
                } else {
                    false
                }
            },
            (Type::Tuple(x), Type::Tuple(y)) => unify_lists(x, y, bindings),
            (Type::Struct(_, d1), Type::Struct(_, d2)) => d1.0 == d2.0,
            (Type::FieldElement(v1), Type::FieldElement(v2)) => *v1 == *v2,
            (Type::Integer(va, sa, wa), Type::Integer(vb, sb, wb)) => *va == *vb && *sa == *sb
                && *wa == *wb,
            (Type::Bool, Type::Bool) => true,
            (Type::Unit, Type::Unit) => true,
            _ => false,
        }
    }

    /// Impose the directed constraint "`self` flows into a slot of type
    /// `other`".  The outcome, bindings included, is exactly
    /// [`spec_subtype`].
    pub fn make_subtype_of(&self, other: &Type, bindings: &mut TypeBindings) -> (ok: bool)
        requires
            old(bindings).wf(),
            poly_valid(*self, old(bindings).table@.len()),
            poly_valid(*other, old(bindings).table@.len()),
        ensures
            final(bindings).wf(),
            final(bindings).table@.len() == old(bindings).table@.len(),
            forall|v: int|
                0 <= v < old(bindings).table@.len() && old(bindings).table@[v] is Bound
                    ==> final(bindings).table@[v] == old(bindings).table@[v],
            (ok, final(bindings).table@) == spec_subtype(old(bindings).table@, *self, *other),
        decreases tsize(*self) + tsize(*other),
    {
        proof {
            lemma_resolve_resolved(bindings.table@, *self);
            lemma_resolve_resolved(bindings.table@, *other);
            lemma_resolve_not_structural(bindings.table@, *self);
            lemma_resolve_not_structural(bindings.table@, *other);
        }
        let l = bindings.resolve_type(self);
        let r = bindings.resolve_type(other);
        match (&l, &r) {
            (Type::FieldElement(FieldElementType::Constant), Type::FieldElement(_)) => true,
            (Type::Integer(FieldElementType::Constant, s, w), Type::Integer(_, s2, w2)) => {
                if *s == *s2 && *w == *w2 {
                    true
                } else {
                    self.unify(other, bindings)
                }
            },
            (
                Type::Array(_, ArraySize::Fixed(_), e1),
                Type::Array(_, ArraySize::Variable, e2),
            ) => e1.make_subtype_of(e2, bindings),
            _ => self.unify(other, bindings),
        }
    }
}

/// Element-wise unification of tuple shapes; see [`spec_unify_list`].
pub fn unify_lists(x: &TypeList, y: &TypeList, bindings: &mut TypeBindings) -> (ok: bool)
    requires
        old(bindings).wf(),
        poly_valid_list(*x, old(bindings).table@.len()),
        poly_valid_list(*y, old(bindings).table@.len()),
    ensures
        final(bindings).wf(),
        final(bindings).table@.len() == old(bindings).table@.len(),
        forall|v: int|
            0 <= v < old(bindings).table@.len() && old(bindings).table@[v] is Bound
                ==> final(bindings).table@[v] == old(bindings).table@[v],
        (ok, final(bindings).table@) == spec_unify_list(old(bindings).table@, *x, *y),
    decreases lsize(*x) + lsize(*y),
{
    match (x, y) {
        (TypeList::Nil, TypeList::Nil) => true,
        (TypeList::Cons(h1, t1), TypeList::Cons(h2, t2)) => {
            let ok = h1.unify(h2, bindings);
            if ok {
                unify_lists(t1, t2, bindings)
            } else {
                false
            }
        },
        _ => false,
    }
}

} // verus!
