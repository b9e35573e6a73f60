//! The type-identity resolver: a model of the foreign runtime's class and
//! module tables, the lookup that locates a user-defined type by its
//! qualified path, instance tests that honour the subtype chain, and a
//! cache for located types.
//!
//! Nothing here touches an ambient global: every entry point takes the
//! foreign runtime handle explicitly, and the cache is an explicit value
//! whose contract says that caching never changes an answer. The
//! synchronization that a shared process-wide cache needs is the caller's:
//! this model pins down what any correctly synchronized cache must return.

use vstd::prelude::*;
use vstd::string::StringExecFns;

use crate::schema::{map_find, map_has_key, strictly_sorted, str_eq, NamedMap};
use crate::value::{clone_value, PyValue, ValueV};

verus! {

/// One class of the foreign runtime: its qualified module path, its name,
/// and its base class, if any.
#[derive(Debug, PartialEq, Eq)]
pub struct ClassDef {
    pub module: String,
    pub name: String,
    pub parent: Option<usize>,
}

/// The mathematical mirror of [`ClassDef`].
pub struct ClassDefV {
    pub module: Seq<char>,
    pub name: Seq<char>,
    pub parent: Option<usize>,
}

impl View for ClassDef {
    type V = ClassDefV;

    open spec fn view(&self) -> ClassDefV {
        ClassDefV { module: self.module@, name: self.name@, parent: self.parent }
    }
}

/// A reference to a class table entry, bindable as a module attribute.
#[derive(Debug, PartialEq, Eq)]
pub struct ClassRef {
    pub class: usize,
}

impl View for ClassRef {
    type V = int;

    open spec fn view(&self) -> int {
        self.class as int
    }
}

/// One module of the foreign runtime: the types it exposes by name, and
/// its functions, each modelled by the value its calls return.
#[derive(Debug, PartialEq, Eq)]
pub struct PyModuleDef {
    pub types: NamedMap<ClassRef>,
    pub functions: NamedMap<PyValue>,
}

/// The mathematical mirror of [`PyModuleDef`].
pub struct PyModuleDefV {
    pub types: Seq<(Seq<char>, int)>,
    pub functions: Seq<(Seq<char>, ValueV)>,
}

impl View for PyModuleDef {
    type V = PyModuleDefV;

    open spec fn view(&self) -> PyModuleDefV {
        PyModuleDefV { types: self.types@, functions: self.functions@ }
    }
}

/// The foreign runtime handle: its class table and its modules. Exactly one
/// such handle stands for the runtime, and every entry point of the runtime
/// library takes it explicitly.
#[derive(Debug, PartialEq, Eq)]
pub struct PyRuntime {
    pub classes: Vec<ClassDef>,
    pub modules: NamedMap<PyModuleDef>,
}

/// The mathematical mirror of [`PyRuntime`].
pub struct PyRuntimeV {
    pub classes: Seq<ClassDefV>,
    pub modules: Seq<(Seq<char>, PyModuleDefV)>,
}

impl View for PyRuntime {
    type V = PyRuntimeV;

    open spec fn view(&self) -> PyRuntimeV {
        PyRuntimeV {
            classes: self.classes@.map_values(|c: ClassDef| c@),
            modules: self.modules@,
        }
    }
}

/// Well-formedness of a runtime: every base class stands earlier in the
/// class table than the class itself (the subtype chains are finite), the
/// module map and each module's maps are sorted, and every class reference
/// of a module points into the class table.
pub open spec fn wf_runtime(rt: PyRuntimeV) -> bool {
    &&& forall|i: int|
        0 <= i < rt.classes.len() ==> match (#[trigger] rt.classes[i]).parent {
            Some(p) => p < i,
            Option::None => true,
        }
    &&& strictly_sorted(rt.modules)
    &&& forall|i: int|
        0 <= i < rt.modules.len() ==> strictly_sorted((#[trigger] rt.modules[i]).1.types)
            && strictly_sorted(rt.modules[i].1.functions)
    &&& forall|i: int, j: int|
        0 <= i < rt.modules.len() && 0 <= j < rt.modules[i].1.types.len() ==> 0 <= (
        #[trigger] rt.modules[i].1.types[j]).1 < rt.classes.len()
}

/// Failure of a qualified-path lookup in the foreign runtime: the module is
/// absent, or the module has no attribute of that name. Distinct from a
/// failed instance test: this reports a broken binding, not a value of the
/// wrong shape.
#[derive(Debug, Clone, Copy, PartialEq, Eq, Structural)]
pub enum ForeignLookupError {
    ModuleNotFound,
    AttributeNotFound,
}

/// What locating a user-defined type by `module` and `name` yields.
pub open spec fn spec_locate(rt: PyRuntimeV, module: Seq<char>, name: Seq<char>) -> Result<
    int,
    ForeignLookupError,
> {
    match map_find(rt.modules, module) {
        Option::None => Err(ForeignLookupError::ModuleNotFound),
        Some(m) => match map_find(m.types, name) {
            Option::None => Err(ForeignLookupError::AttributeNotFound),
            Some(c) => Ok(c),
        },
    }
}

/// Locates the class a qualified path names, walking the module map and
/// the module's attributes; fails exactly as [`spec_locate`] says.
pub fn locate_type(rt: &PyRuntime, module: &str, name: &str) -> (r: Result<
    usize,
    ForeignLookupError,
>)
    requires
        wf_runtime(rt@),
    ensures
        match r {
            Ok(c) => spec_locate(rt@, module@, name@) == Ok::<int, ForeignLookupError>(c as int),
            Err(e) => spec_locate(rt@, module@, name@) == Err::<int, ForeignLookupError>(e),
        },
{
    let m = match rt.modules.get(module) {
        Some(m) => m,
        Option::None => {
            return Err(ForeignLookupError::ModuleNotFound);
        },
    };
    proof {
        let i = crate::schema::map_index_of(rt@.modules, module@);
        assert(strictly_sorted(rt@.modules[i].1.types));
    }
    match m.types.get(name) {
        Some(c) => Ok(c.class),
        Option::None => Err(ForeignLookupError::AttributeNotFound),
    }
}

/// Whether class `c` is `target` or inherits from it through the chain of
/// base classes.
pub open spec fn subclass_of(classes: Seq<ClassDefV>, c: int, target: int) -> bool
    decreases c,
{
    if !(0 <= c < classes.len()) {
        false
    } else if c == target {
        true
    } else {
        match classes[c].parent {
            Some(p) => if p < c {
                subclass_of(classes, p as int, target)
            } else {
                false
            },
            Option::None => false,
        }
    }
}

/// Whether the value is an instance of the class, subtypes included.
pub open spec fn spec_is_type_of(rt: PyRuntimeV, class: int, v: ValueV) -> bool {
    match v {
        ValueV::Instance { class: c } => subclass_of(rt.classes, c as int, class),
        _ => false,
    }
}

/// Tests whether the value is an instance of the class, subtypes included;
/// a direct runtime type walk, no lookup involved.
pub fn is_type_of(rt: &PyRuntime, class: usize, v: &PyValue) -> (r: bool)
    requires
        wf_runtime(rt@),
    ensures
        r == spec_is_type_of(rt@, class as int, v@),
{
    let c0 = match v {
        PyValue::Instance { class: c } => *c,
        _ => {
            return false;
        },
    };
    let n = rt.classes.len();
    let mut c = c0;
    proof {
        assert(rt@.classes.len() == n);
        assert(v@ == ValueV::Instance { class: c0 });
    }
    loop
        invariant
            wf_runtime(rt@),
            n == rt@.classes.len(),
            n == rt.classes@.len(),
            v@ == (ValueV::Instance { class: c0 }),
            forall|k: int| 0 <= k < n ==> rt@.classes[k] == rt.classes@[k]@,
            subclass_of(rt@.classes, c0 as int, class as int) == subclass_of(
                rt@.classes,
                c as int,
                class as int,
            ),
        decreases c,
    {
        if c >= n {
            return false;
        }
        if c == class {
            return true;
        }
        let p = match rt.classes[c].parent {
            Some(p) => p,
            Option::None => {
                return false;
            },
        };
        proof {
            assert(rt@.classes[c as int].parent == Some(p));
            assert(p < c);
        }
        c = p;
    }
}

/// Whether the value's runtime type is exactly the class, no subtype match.
pub open spec fn spec_is_exact_type_of(class: int, v: ValueV) -> bool {
    match v {
        ValueV::Instance { class: c } => c as int == class,
        _ => false,
    }
}

/// Tests whether the value's runtime type is exactly the class.
pub fn is_exact_type_of(class: usize, v: &PyValue) -> (r: bool)
    ensures
        r == spec_is_exact_type_of(class as int, v@),
{
    match v {
        PyValue::Instance { class: c } => *c == class,
        _ => false,
    }
}

/// The dotted path of a class: its module, a dot, its name.
pub open spec fn path_text(module: Seq<char>, name: Seq<char>) -> Seq<char> {
    module + "."@ + name
}

/// Renders [`path_text`].
pub fn path_of(module: &str, name: &str) -> (r: String)
    ensures
        r@ == path_text(module@, name@),
{
    let mut out = String::new();
    out.append(module);
    out.append(".");
    out.append(name);
    proof {
        assert(out@ =~= module@ + "."@ + name@);
    }
    out
}

/// A cache of located types, keyed by qualified path. Only successful
/// lookups are stored.
pub struct TypeCache {
    pub entries: Vec<(String, String, usize)>,
}

/// A cache entry is right for a runtime when locating its path yields
/// exactly the class it stores.
pub open spec fn cache_ok(entries: Seq<(String, String, usize)>, rt: PyRuntimeV) -> bool {
    forall|i: int|
        0 <= i < entries.len() ==> spec_locate(
            rt,
            (#[trigger] entries[i]).0@,
            entries[i].1@,
        ) == Ok::<int, ForeignLookupError>(entries[i].2 as int)
}

impl TypeCache {
    /// The empty cache, right for any runtime.
    pub fn new() -> (r: TypeCache)
        ensures
            r.entries@.len() == 0,
    {
        TypeCache { entries: Vec::new() }
    }

    /// Locates a type through the cache. Caching is transparent: the result
    /// is exactly what a direct lookup yields, and the cache stays right
    /// for the runtime.
    pub fn locate(&mut self, rt: &PyRuntime, module: &str, name: &str) -> (r: Result<
        usize,
        ForeignLookupError,
    >)
        requires
            wf_runtime(rt@),
            cache_ok(old(self).entries@, rt@),
        ensures
            cache_ok(final(self).entries@, rt@),
            match r {
                Ok(c) => spec_locate(rt@, module@, name@) == Ok::<int, ForeignLookupError>(
                    c as int,
                ),
                Err(e) => spec_locate(rt@, module@, name@) == Err::<int, ForeignLookupError>(e),
            },
    {
        let n = self.entries.len();
        let mut i: usize = 0;
        while i < n
            invariant
                i <= n,
                n == self.entries@.len(),
                cache_ok(self.entries@, rt@),
                self.entries@ == old(self).entries@,
            decreases n - i,
        {
            if str_eq(self.entries[i].0.as_str(), module) && str_eq(
                self.entries[i].1.as_str(),
                name,
            ) {
                return Ok(self.entries[i].2);
            }
            i = i + 1;
        }
        let c = match locate_type(rt, module, name) {
            Ok(c) => c,
            Err(e) => {
                return Err(e);
            },
        };
        let ghost oldv = self.entries@;
        self.entries.push((module.to_owned(), name.to_owned(), c));
        proof {
            assert forall|k: int| 0 <= k < self.entries@.len() implies spec_locate(
                rt@,
                (#[trigger] self.entries@[k]).0@,
                self.entries@[k].1@,
            ) == Ok::<int, ForeignLookupError>(self.entries@[k].2 as int) by {
                if k < oldv.len() {
                    assert(self.entries@[k] == oldv[k]);
                }
            }
        }
        Ok(c)
    }
}

/// What calling a module function yields in the model: the canned value
/// the runtime holds for it, or the lookup failure.
pub open spec fn spec_call(rt: PyRuntimeV, module: Seq<char>, name: Seq<char>) -> Result<
    ValueV,
    ForeignLookupError,
> {
    match map_find(rt.modules, module) {
        Option::None => Err(ForeignLookupError::ModuleNotFound),
        Some(m) => match map_find(m.functions, name) {
            Option::None => Err(ForeignLookupError::AttributeNotFound),
            Some(v) => Ok(v),
        },
    }
}

/// Calls a module function of the foreign runtime model: looks the module
/// and the function up and yields the value the model holds for it. The
/// arguments do not steer the model's canned result; a wrapper hands them
/// through for the call's shape.
pub fn call_function(rt: &PyRuntime, module: &str, name: &str, _args: Vec<PyValue>) -> (r: Result<
    PyValue,
    ForeignLookupError,
>)
    requires
        wf_runtime(rt@),
    ensures
        match r {
            Ok(v) => spec_call(rt@, module@, name@) == Ok::<ValueV, ForeignLookupError>(v@),
            Err(e) => spec_call(rt@, module@, name@) == Err::<ValueV, ForeignLookupError>(e),
        },
{
    let m = match rt.modules.get(module) {
        Some(m) => m,
        Option::None => {
            return Err(ForeignLookupError::ModuleNotFound);
        },
    };
    proof {
        let i = crate::schema::map_index_of(rt@.modules, module@);
        assert(strictly_sorted(rt@.modules[i].1.functions));
    }
    match m.functions.get(name) {
        Some(v) => Ok(clone_value(v)),
        Option::None => Err(ForeignLookupError::AttributeNotFound),
    }
}

} // verus!
