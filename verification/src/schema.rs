//! The schema model: the closed type algebra describing a foreign module's
//! interface, together with the aggregates `Parameter`, `Function`,
//! `TypeDefinition` and `Interface`.

use vstd::prelude::*;

verus! {

/// The built-in primitive kinds of the foreign language.
#[derive(Debug, Clone, Copy, PartialEq, Eq, Structural)]
pub enum Primitive {
    Int,
    Float,
    Str,
}

/// A type expression of the schema's closed type algebra.
#[derive(Debug, PartialEq, Eq)]
pub enum Type {
    Primitive(Primitive),
    Tuple { tags: Vec<Type> },
    List { element: Box<Type> },
    Dict { key: Box<Type>, value: Box<Type> },
    UserDefined { module: String, name: String, supertype: Box<Type> },
    Union { args: Vec<Type> },
    Callable { args: Vec<Type>, ret: Box<Type> },
    Ellipsis,
    Exception,
    NoneType,
}

/// The mathematical mirror of [`Type`]: strings as character sequences,
/// lists as `Seq`.
pub enum TypeV {
    Primitive(Primitive),
    Tuple { tags: Seq<TypeV> },
    List { element: Box<TypeV> },
    Dict { key: Box<TypeV>, value: Box<TypeV> },
    UserDefined { module: Seq<char>, name: Seq<char>, supertype: Box<TypeV> },
    Union { args: Seq<TypeV> },
    Callable { args: Seq<TypeV>, ret: Box<TypeV> },
    Ellipsis,
    Exception,
    NoneType,
}

pub open spec fn view_type_seq(ts: Seq<Type>) -> Seq<TypeV>
    decreases ts,
{
    if ts.len() == 0 {
        Seq::empty()
    } else {
        view_type_seq(ts.subrange(0, ts.len() - 1)).push(view_type(ts[ts.len() - 1]))
    }
}

/// The view of a sequence of types is as long as the sequence and views it
/// pointwise.
pub proof fn lemma_view_type_seq_index(ts: Seq<Type>)
    ensures
        view_type_seq(ts).len() == ts.len(),
        forall|i: int| 0 <= i < ts.len() ==> view_type_seq(ts)[i] == view_type(#[trigger] ts[i]),
    decreases ts.len(),
{
    if ts.len() > 0 {
        lemma_view_type_seq_index(ts.subrange(0, ts.len() - 1));
        assert forall|i: int| 0 <= i < ts.len() implies view_type_seq(ts)[i] == view_type(
            #[trigger] ts[i],
        ) by {
            if i < ts.len() - 1 {
                assert(ts.subrange(0, ts.len() - 1)[i] == ts[i]);
            }
        }
    }
}

pub open spec fn view_type(t: Type) -> TypeV
    decreases t,
{
    match t {
        Type::Primitive(p) => TypeV::Primitive(p),
        Type::Tuple { tags } => TypeV::Tuple { tags: view_type_seq(tags@) },
        Type::List { element } => TypeV::List { element: Box::new(view_type(*element)) },
        Type::Dict { key, value } => TypeV::Dict {
            key: Box::new(view_type(*key)),
            value: Box::new(view_type(*value)),
        },
        Type::UserDefined { module, name, supertype } => TypeV::UserDefined {
            module: module@,
            name: name@,
            supertype: Box::new(view_type(*supertype)),
        },
        Type::Union { args } => TypeV::Union { args: view_type_seq(args@) },
        Type::Callable { args, ret } => TypeV::Callable {
            args: view_type_seq(args@),
            ret: Box::new(view_type(*ret)),
        },
        Type::Ellipsis => TypeV::Ellipsis,
        Type::Exception => TypeV::Exception,
        Type::NoneType => TypeV::NoneType,
    }
}

impl View for Type {
    type V = TypeV;

    open spec fn view(&self) -> TypeV {
        view_type(*self)
    }
}

/// Well-formedness of a type expression: every union, anywhere in the tree,
/// has at least two branches.
pub open spec fn wf_type(t: TypeV) -> bool
    decreases t,
{
    match t {
        TypeV::Primitive(_) => true,
        TypeV::Tuple { tags } => forall|i: int| 0 <= i < tags.len() ==> wf_type(#[trigger] tags[i]),
        TypeV::List { element } => wf_type(*element),
        TypeV::Dict { key, value } => wf_type(*key) && wf_type(*value),
        TypeV::UserDefined { supertype, .. } => wf_type(*supertype),
        TypeV::Union { args } => args.len() >= 2 && forall|i: int|
            0 <= i < args.len() ==> wf_type(#[trigger] args[i]),
        TypeV::Callable { args, ret } => wf_type(*ret) && forall|i: int|
            0 <= i < args.len() ==> wf_type(#[trigger] args[i]),
        TypeV::Ellipsis => true,
        TypeV::Exception => true,
        TypeV::NoneType => true,
    }
}

/// Strict lexicographic order on character sequences, by code point.
pub open spec fn lex_lt(a: Seq<char>, b: Seq<char>) -> bool
    decreases a.len(),
{
    if b.len() == 0 {
        false
    } else if a.len() == 0 {
        true
    } else if a[0] != b[0] {
        a[0] < b[0]
    } else {
        lex_lt(a.skip(1), b.skip(1))
    }
}

/// `lex_lt` is trichotomous: of two sequences, either one is strictly below
/// the other or they are equal.
pub proof fn lemma_lex_trichotomy(a: Seq<char>, b: Seq<char>)
    ensures
        lex_lt(a, b) || lex_lt(b, a) || a == b,
    decreases a.len(),
{
    if b.len() == 0 {
        if a.len() == 0 {
            assert(a =~= b);
        }
    } else if a.len() == 0 {
    } else if a[0] != b[0] {
        assert(a[0] < b[0] || b[0] < a[0]);
    } else {
        lemma_lex_trichotomy(a.skip(1), b.skip(1));
        if a.skip(1) == b.skip(1) {
            assert(a =~= seq![a[0]] + a.skip(1));
            assert(b =~= seq![b[0]] + b.skip(1));
        }
    }
}

/// `lex_lt` is irreflexive.
pub proof fn lemma_lex_irrefl(a: Seq<char>)
    ensures
        !lex_lt(a, a),
    decreases a.len(),
{
    if a.len() > 0 {
        lemma_lex_irrefl(a.skip(1));
    }
}

/// Compares two strings in the order that [`lex_lt`] describes.
pub fn str_lt(a: &str, b: &str) -> (r: bool)
    ensures
        r == lex_lt(a@, b@),
{
    let alen = a.unicode_len();
    let blen = b.unicode_len();
    let mut i: usize = 0;
    proof {
        assert(a@.skip(0) =~= a@);
        assert(b@.skip(0) =~= b@);
    }
    loop
        invariant
            i <= alen,
            i <= blen,
            alen == a@.len(),
            blen == b@.len(),
            lex_lt(a@, b@) == lex_lt(a@.skip(i as int), b@.skip(i as int)),
        decreases alen - i,
    {
        if i >= alen || i >= blen {
            return i < blen;
        }
        let ca = a.get_char(i);
        let cb = b.get_char(i);
        proof {
            assert(a@.skip(i as int)[0] == a@[i as int]);
            assert(b@.skip(i as int)[0] == b@[i as int]);
        }
        if ca != cb {
            return ca < cb;
        }
        proof {
            assert(a@.skip(i as int).skip(1) =~= a@.skip(i + 1));
            assert(b@.skip(i as int).skip(1) =~= b@.skip(i + 1));
        }
        i = i + 1;
    }
}

/// Tests two strings for equality of their character sequences.
pub fn str_eq(a: &str, b: &str) -> (r: bool)
    ensures
        r == (a@ == b@),
{
    let alen = a.unicode_len();
    let blen = b.unicode_len();
    if alen != blen {
        return false;
    }
    let mut i: usize = 0;
    loop
        invariant
            i <= alen,
            alen == a@.len(),
            blen == b@.len(),
            alen == blen,
            forall|k: int| 0 <= k < i ==> a@[k] == b@[k],
        decreases alen - i,
    {
        if i >= alen {
            proof {
                assert(a@ =~= b@);
            }
            return true;
        }
        if a.get_char(i) != b.get_char(i) {
            return false;
        }
        i = i + 1;
    }
}

/// A named parameter of a foreign function.
#[derive(Debug, PartialEq, Eq)]
pub struct Parameter {
    pub name: String,
    pub ty: Type,
}

/// The mathematical mirror of [`Parameter`].
pub struct ParameterV {
    pub name: Seq<char>,
    pub ty: TypeV,
}

impl View for Parameter {
    type V = ParameterV;

    open spec fn view(&self) -> ParameterV {
        ParameterV { name: self.name@, ty: self.ty@ }
    }
}

/// A foreign function's signature.
#[derive(Debug, PartialEq, Eq)]
pub struct Function {
    pub name: String,
    pub parameters: Vec<Parameter>,
    pub ret: Type,
}

/// The mathematical mirror of [`Function`].
pub struct FunctionV {
    pub name: Seq<char>,
    pub parameters: Seq<ParameterV>,
    pub ret: TypeV,
}

impl View for Function {
    type V = FunctionV;

    open spec fn view(&self) -> FunctionV {
        FunctionV {
            name: self.name@,
            parameters: self.parameters@.map_values(|p: Parameter| p@),
            ret: self.ret@,
        }
    }
}

/// A nominal alias: a named, module-qualified wrapper over a supertype.
#[derive(Debug, PartialEq, Eq)]
pub struct TypeDefinition {
    pub name: String,
    pub module: String,
    pub supertype: Type,
}

/// The mathematical mirror of [`TypeDefinition`].
pub struct TypeDefinitionV {
    pub name: Seq<char>,
    pub module: Seq<char>,
    pub supertype: TypeV,
}

impl View for TypeDefinition {
    type V = TypeDefinitionV;

    open spec fn view(&self) -> TypeDefinitionV {
        TypeDefinitionV {
            name: self.name@,
            module: self.module@,
            supertype: self.supertype@,
        }
    }
}

/// A named union entry of the interface's optional union registry.
#[derive(Debug, PartialEq, Eq)]
pub struct UnionDef {
    pub args: Vec<Type>,
}

impl View for UnionDef {
    type V = Seq<TypeV>;

    open spec fn view(&self) -> Seq<TypeV> {
        view_type_seq(self.args@)
    }
}

/// An association list from names to values whose keys are strictly
/// increasing in [`lex_lt`] order; the exec form of a name-keyed mapping
/// with unique keys and a deterministic iteration order.
#[derive(Debug, PartialEq, Eq)]
pub struct NamedMap<V> {
    pub entries: Vec<(String, V)>,
}

impl<V: View> View for NamedMap<V> {
    type V = Seq<(Seq<char>, V::V)>;

    open spec fn view(&self) -> Seq<(Seq<char>, V::V)> {
        self.entries@.map_values(|e: (String, V)| (e.0@, e.1@))
    }
}

/// Strictly increasing keys: the sortedness-with-uniqueness invariant of a
/// [`NamedMap`] view.
pub open spec fn strictly_sorted<T>(m: Seq<(Seq<char>, T)>) -> bool {
    forall|i: int, j: int| 0 <= i < j < m.len() ==> lex_lt(#[trigger] m[i].0, #[trigger] m[j].0)
}

/// Whether some entry of a map view bears the given key.
pub open spec fn map_has_key<T>(m: Seq<(Seq<char>, T)>, key: Seq<char>) -> bool {
    exists|i: int| 0 <= i < m.len() && (#[trigger] m[i].0) == key
}

/// The index of the entry bearing the given key, where one exists.
pub open spec fn map_index_of<T>(m: Seq<(Seq<char>, T)>, key: Seq<char>) -> int {
    choose|i: int| 0 <= i < m.len() && (#[trigger] m[i].0) == key
}

/// The value bound to a key: `Some` exactly when an entry bears it.
pub open spec fn map_find<T>(m: Seq<(Seq<char>, T)>, key: Seq<char>) -> Option<T> {
    if map_has_key(m, key) {
        Some(m[map_index_of(m, key)].1)
    } else {
        Option::None
    }
}

/// In a strictly sorted map the entry at any index bearing a key is the one
/// that [`map_find`] returns: keys are unique.
pub proof fn lemma_sorted_find<T>(m: Seq<(Seq<char>, T)>, key: Seq<char>, i: int)
    requires
        strictly_sorted(m),
        0 <= i < m.len(),
        m[i].0 == key,
    ensures
        map_find(m, key) == Some(m[i].1),
        map_index_of(m, key) == i,
{
    assert(map_has_key(m, key));
    let j = map_index_of(m, key);
    assert(0 <= j < m.len() && m[j].0 == key);
    if i < j {
        assert(lex_lt(m[i].0, m[j].0));
        lemma_lex_irrefl(key);
    } else if j < i {
        assert(lex_lt(m[j].0, m[i].0));
        lemma_lex_irrefl(key);
    }
}

impl<V: View> NamedMap<V> {
    /// The empty mapping.
    pub fn new() -> (r: NamedMap<V>)
        ensures
            r@ =~= Seq::<(Seq<char>, V::V)>::empty(),
    {
        NamedMap { entries: Vec::new() }
    }

    /// The number of entries.
    pub fn len(&self) -> (r: usize)
        ensures
            r == self@.len(),
    {
        self.entries.len()
    }

    /// Looks a name up; `Some` exactly when an entry bears it.
    pub fn get(&self, name: &str) -> (r: Option<&V>)
        requires
            strictly_sorted(self@),
        ensures
            match r {
                Some(v) => map_find(self@, name@) == Some(v@),
                None => map_find(self@, name@) is None,
            },
    {
        let n = self.entries.len();
        let mut i: usize = 0;
        while i < n
            invariant
                i <= n,
                n == self@.len(),
                strictly_sorted(self@),
                forall|k: int| 0 <= k < i ==> (#[trigger] self@[k]).0 != name@,
            decreases n - i,
        {
            if str_eq(self.entries[i].0.as_str(), name) {
                proof {
                    assert(self@[i as int] == (self.entries@[i as int].0@, self.entries@[
                        i as int].1@));
                    lemma_sorted_find(self@, name@, i as int);
                }
                return Some(&self.entries[i].1);
            }
            i = i + 1;
        }
        None
    }

    /// Finds the position where `name` would stand, or an existing entry
    /// that already bears it.
    fn find_slot(&self, name: &str) -> (r: Result<usize, usize>)
        requires
            strictly_sorted(self@),
        ensures
            match r {
                Ok(i) => {
                    &&& 0 <= i <= self@.len()
                    &&& forall|k: int| 0 <= k < i ==> lex_lt((#[trigger] self@[k]).0, name@)
                    &&& i < self@.len() ==> lex_lt(name@, self@[i as int].0)
                },
                Err(i) => 0 <= i < self@.len() && self@[i as int].0 == name@,
            },
    {
        let n = self.entries.len();
        let mut i: usize = 0;
        while i < n
            invariant
                i <= n,
                n == self@.len(),
                strictly_sorted(self@),
                forall|k: int| 0 <= k < i ==> lex_lt((#[trigger] self@[k]).0, name@),
            decreases n - i,
        {
            let here = self.entries[i].0.as_str();
            if str_eq(here, name) {
                return Err(i);
            }
            if str_lt(name, here) {
                return Ok(i);
            }
            proof {
                lemma_lex_trichotomy(self@[i as int].0, name@);
            }
            i = i + 1;
        }
        Ok(n)
    }

    /// Inserts a binding at its sorted position; fails exactly when the key
    /// is already bound, leaving the map unchanged.
    pub fn insert(&mut self, name: String, value: V) -> (r: Result<(), ()>)
        requires
            strictly_sorted(old(self)@),
        ensures
            strictly_sorted(final(self)@),
            match r {
                Ok(()) => !map_has_key(old(self)@, name@) && exists|i: int|
                    0 <= i <= old(self)@.len() && final(self)@ == old(self)@.insert(
                        i,
                        (name@, value@),
                    ) && #[trigger] insert_pos_ok(old(self)@, name@, i),
                Err(()) => map_has_key(old(self)@, name@) && final(self)@ == old(self)@,
            },
    {
        let i = match self.find_slot(name.as_str()) {
            Err(_) => {
                return Err(());
            },
            Ok(i) => i,
        };
        proof {
            let m = self@;
            let n = m.len() as int;
            let pos = i as int;
            assert forall|k: int| pos <= k < n implies lex_lt(name@, (#[trigger] m[k]).0) by {
                if pos < k {
                    assert(lex_lt(m[pos].0, m[k].0));
                    lemma_lex_transitive(name@, m[pos].0, m[k].0);
                }
            }
            assert(insert_pos_ok(m, name@, pos));
            lemma_lex_irrefl(name@);
            assert forall|k: int| 0 <= k < n implies (#[trigger] m[k]).0 != name@ by {
                if m[k].0 == name@ {
                    assert(lex_lt(name@, name@));
                }
            }
        }
        let ghost old_view = self@;
        let ghost pos = i as int;
        let ghost nview = name@;
        let ghost vview = value@;
        self.entries.insert(i, (name, value));
        proof {
            assert(self@ =~= old_view.insert(pos, (nview, vview)));
            let m2 = self@;
            assert forall|x: int, y: int| 0 <= x < y < m2.len() implies lex_lt(
                (#[trigger] m2[x]).0,
                (#[trigger] m2[y]).0,
            ) by {
                let e = (nview, vview);
                if x == pos {
                    assert(m2[y] == old_view[y - 1]);
                } else if y == pos {
                    assert(m2[x] == old_view[x]);
                } else if x < pos && y > pos {
                    assert(m2[x] == old_view[x]);
                    assert(m2[y] == old_view[y - 1]);
                    if x == y - 1 {
                        assert(lex_lt(old_view[x].0, nview));
                        assert(lex_lt(nview, old_view[y - 1].0));
                        lemma_lex_transitive(old_view[x].0, nview, old_view[y - 1].0);
                    } else {
                        assert(lex_lt(old_view[x].0, old_view[y - 1].0));
                    }
                } else if y < pos {
                    assert(m2[x] == old_view[x]);
                    assert(m2[y] == old_view[y]);
                } else {
                    assert(m2[x] == old_view[x - 1]);
                    assert(m2[y] == old_view[y - 1]);
                }
            }
        }
        Ok(())
    }
}

/// Where a new key may stand: everything before is strictly below it,
/// everything from there on strictly above.
pub open spec fn insert_pos_ok<T>(m: Seq<(Seq<char>, T)>, key: Seq<char>, i: int) -> bool {
    &&& forall|k: int| 0 <= k < i ==> lex_lt((#[trigger] m[k]).0, key)
    &&& forall|k: int| i <= k < m.len() ==> lex_lt(key, (#[trigger] m[k]).0)
}

/// `lex_lt` is transitive.
pub proof fn lemma_lex_transitive(a: Seq<char>, b: Seq<char>, c: Seq<char>)
    requires
        lex_lt(a, b),
        lex_lt(b, c),
    ensures
        lex_lt(a, c),
    decreases a.len(),
{
    if c.len() == 0 {
    } else if b.len() == 0 {
    } else if a.len() == 0 {
    } else {
        if a[0] == b[0] && b[0] == c[0] {
            lemma_lex_transitive(a.skip(1), b.skip(1), c.skip(1));
        }
    }
}

/// The whole described interface: functions and nominal type definitions by
/// name, and an optional registry of named unions.
#[derive(Debug, PartialEq, Eq)]
pub struct Interface {
    pub functions: NamedMap<Function>,
    pub type_definitions: NamedMap<TypeDefinition>,
    pub unions: NamedMap<UnionDef>,
}

/// The mathematical mirror of [`Interface`].
pub struct InterfaceV {
    pub functions: Seq<(Seq<char>, FunctionV)>,
    pub type_definitions: Seq<(Seq<char>, TypeDefinitionV)>,
    pub unions: Seq<(Seq<char>, Seq<TypeV>)>,
}

impl View for Interface {
    type V = InterfaceV;

    open spec fn view(&self) -> InterfaceV {
        InterfaceV {
            functions: self.functions@,
            type_definitions: self.type_definitions@,
            unions: self.unions@,
        }
    }
}

/// Well-formedness of a function: every parameter type and the return type
/// are well formed.
pub open spec fn wf_function(f: FunctionV) -> bool {
    &&& wf_type(f.ret)
    &&& forall|i: int| 0 <= i < f.parameters.len() ==> wf_type((#[trigger] f.parameters[i]).ty)
}

/// Well-formedness of an interface: each registry has strictly sorted keys
/// and well-formed contents, and every union of the registry has at least
/// two branches.
pub open spec fn wf_interface(iv: InterfaceV) -> bool {
    &&& strictly_sorted(iv.functions)
    &&& strictly_sorted(iv.type_definitions)
    &&& strictly_sorted(iv.unions)
    &&& forall|i: int| 0 <= i < iv.functions.len() ==> wf_function((#[trigger] iv.functions[i]).1)
    &&& forall|i: int|
        0 <= i < iv.type_definitions.len() ==> wf_type(
            (#[trigger] iv.type_definitions[i]).1.supertype,
        )
    &&& forall|i: int|
        0 <= i < iv.unions.len() ==> ((#[trigger] iv.unions[i]).1.len() >= 2 && forall|j: int|
            0 <= j < iv.unions[i].1.len() ==> wf_type(#[trigger] iv.unions[i].1[j]))
}

impl Interface {
    /// The interface with nothing in it.
    pub fn new() -> (r: Interface)
        ensures
            r@.functions =~= Seq::<(Seq<char>, FunctionV)>::empty(),
            r@.type_definitions =~= Seq::<(Seq<char>, TypeDefinitionV)>::empty(),
            r@.unions =~= Seq::<(Seq<char>, Seq<TypeV>)>::empty(),
    {
        Interface {
            functions: NamedMap::new(),
            type_definitions: NamedMap::new(),
            unions: NamedMap::new(),
        }
    }
}

} // verus!
