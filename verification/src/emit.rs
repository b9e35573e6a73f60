//! The code emitter: turns an [`Interface`] into target-language source
//! text. Emission is a pure function of the module name, the interface and
//! the namespace flag; equal inputs give byte-identical output. Type
//! definitions are emitted first, then one capability trait per distinct
//! set of primitive branches among the input-position unions, then one
//! wrapper per function, in the interface's (sorted) order.

use vstd::prelude::*;
use vstd::string::{StrSliceExecFns, StringExecFns};

use crate::mapper::{
    all_primitive, as_input_type, as_output_type, input_type, output_type,
    primitive_members, union_trait_ident, union_members, union_trait_name,
    UnsupportedTypeError,
};
use crate::schema::{
    str_eq, Function, FunctionV, Interface, InterfaceV, NamedMap, Parameter, ParameterV, Type,
    TypeDefinition, TypeDefinitionV, TypeV,
};

verus! {

/// The identifier a parameter name maps to: a keyword of the target
/// language is prefixed with an underscore.
pub open spec fn as_ident_text(name: Seq<char>) -> Seq<char> {
    if name == "self"@ {
        "_self"@
    } else {
        name
    }
}

/// Renders [`as_ident_text`].
pub fn as_ident(name: &str) -> (r: String)
    ensures
        r@ == as_ident_text(name@),
{
    if str_eq(name, "self") {
        "_self".to_owned()
    } else {
        name.to_owned()
    }
}

/// The signature text a parameter list contributes, after the runtime
/// handle: `, name: Type` for each parameter.
pub open spec fn params_sig(ps: Seq<ParameterV>) -> Option<Seq<char>>
    decreases ps,
{
    if ps.len() == 0 {
        Some(Seq::empty())
    } else {
        let init = params_sig(ps.subrange(0, ps.len() - 1));
        let p = ps[ps.len() - 1];
        match (init, input_type(p.ty)) {
            (Some(a), Some(t)) => Some(a + ", "@ + as_ident_text(p.name) + ": "@ + t),
            _ => Option::None,
        }
    }
}

/// The argument tuple's interior: each parameter's identifier followed by a
/// comma.
pub open spec fn args_tuple(ps: Seq<ParameterV>) -> Seq<char>
    decreases ps,
{
    if ps.len() == 0 {
        Seq::empty()
    } else {
        args_tuple(ps.subrange(0, ps.len() - 1)) + as_ident_text(ps[ps.len() - 1].name) + ","@
    }
}

/// The adapter line a single parameter contributes: a callable-typed
/// parameter is wrapped for the foreign runtime before the call, a nullary
/// one through a closure that discards the foreign argument tuple.
pub open spec fn convert_line(p: ParameterV) -> Seq<char> {
    match p.ty {
        TypeV::Callable { args, .. } => if args.len() == 0 {
            "let "@ + as_ident_text(p.name) + " = ::py2o2_runtime::as_pycfunc(py, move |_input: [usize; 0]| "@
                + as_ident_text(p.name) + "())?; "@
        } else {
            "let "@ + as_ident_text(p.name) + " = ::py2o2_runtime::as_pycfunc(py, "@
                + as_ident_text(p.name) + ")?; "@
        },
        _ => Seq::empty(),
    }
}

/// The adapter lines of a whole parameter list.
pub open spec fn convert_lines(ps: Seq<ParameterV>) -> Seq<char>
    decreases ps,
{
    if ps.len() == 0 {
        Seq::empty()
    } else {
        convert_lines(ps.subrange(0, ps.len() - 1)) + convert_line(ps[ps.len() - 1])
    }
}

/// The expression that performs the foreign call.
pub open spec fn call_expr(module: Seq<char>, fname: Seq<char>, ps: Seq<ParameterV>) -> Seq<char> {
    "py.import(\""@ + module + "\")?.getattr(\""@ + fname + "\")?.call(("@ + args_tuple(ps)
        + "), None)?"@
}

/// The wrapper body after the adapter lines: a `none`-returning function
/// discards the foreign result, any other decodes it.
pub open spec fn body_core(module: Seq<char>, f: FunctionV) -> Seq<char> {
    if f.ret is NoneType {
        "let _ = "@ + call_expr(module, f.name, f.parameters) + "; Ok(())"@
    } else {
        "let result = "@ + call_expr(module, f.name, f.parameters) + "; Ok(result.extract()?)"@
    }
}

/// The whole wrapper a function emits.
pub open spec fn wrapper_text(module: Seq<char>, f: FunctionV) -> Option<Seq<char>> {
    match (params_sig(f.parameters), output_type(f.ret)) {
        (Some(sig), Some(out)) => Some(
            "pub fn "@ + f.name + "<'py>(py: ::pyo3::Python<'py>"@ + sig
                + ") -> ::pyo3::PyResult<"@ + out + "> { "@ + convert_lines(f.parameters)
                + body_core(module, f) + " }\n"@,
        ),
        _ => Option::None,
    }
}

/// The nominal wrapper struct a type definition emits: a one-field struct
/// over the mapped output type of its supertype, with the identity
/// conversion back across the boundary.
pub open spec fn typedef_text(td: TypeDefinitionV) -> Option<Seq<char>> {
    match output_type(td.supertype) {
        Some(inner) => Some(
            "#[derive(Debug, PartialEq, Eq, PartialOrd, Ord, Hash)] pub struct "@ + td.name
                + "(pub "@ + inner
                + "); impl ::pyo3::conversion::IntoPy<::pyo3::PyObject> for "@ + td.name
                + " { fn into_py(self, py: ::pyo3::Python<'_>) -> ::pyo3::PyObject { self.0.into_py(py) } }\n"@,
        ),
        Option::None => Option::None,
    }
}

/// Whether a type is an input-position union whose branch set is exactly
/// the given members.
pub open spec fn param_is_union_with(t: TypeV, m: (bool, bool, bool)) -> bool {
    match t {
        TypeV::Union { args } => all_primitive(args) && union_members(args) == m,
        _ => false,
    }
}

/// Whether some parameter of the function is such a union.
pub open spec fn fn_uses_union(f: FunctionV, m: (bool, bool, bool)) -> bool {
    exists|j: int| 0 <= j < f.parameters.len() && param_is_union_with(
        (#[trigger] f.parameters[j]).ty,
        m,
    )
}

/// Whether some function of the interface has such a union parameter.
pub open spec fn iface_uses_union(
    fs: Seq<(Seq<char>, FunctionV)>,
    m: (bool, bool, bool),
) -> bool {
    exists|i: int| 0 <= i < fs.len() && fn_uses_union((#[trigger] fs[i]).1, m)
}

/// The definition text of one union capability trait: the trait and one
/// impl per member primitive.
pub open spec fn trait_def_text(m: (bool, bool, bool)) -> Seq<char> {
    let n = union_trait_name(m);
    "pub trait "@ + n + ": ::pyo3::conversion::IntoPy<::pyo3::PyObject> {} "@ + (if m.0 {
        "impl "@ + n + " for i64 {} "@
    } else {
        Seq::empty()
    }) + (if m.1 {
        "impl "@ + n + " for f64 {} "@
    } else {
        Seq::empty()
    }) + (if m.2 {
        "impl "@ + n + " for &str {} "@
    } else {
        Seq::empty()
    }) + "\n"@
}

/// The seven possible member sets of an input-position union, in the fixed
/// order the emitter walks them.
pub open spec fn all_masks() -> Seq<(bool, bool, bool)> {
    seq![
        (true, false, false),
        (false, true, false),
        (true, true, false),
        (false, false, true),
        (true, false, true),
        (false, true, true),
        (true, true, true),
    ]
}

/// One trait definition per used member set, in the fixed order.
pub open spec fn union_traits_text(fs: Seq<(Seq<char>, FunctionV)>) -> Seq<char> {
    traits_cat(fs, all_masks())
}

/// Concatenates the trait definitions of the used masks of `ms`.
pub open spec fn traits_cat(
    fs: Seq<(Seq<char>, FunctionV)>,
    ms: Seq<(bool, bool, bool)>,
) -> Seq<char>
    decreases ms,
{
    if ms.len() == 0 {
        Seq::empty()
    } else {
        traits_cat(fs, ms.subrange(0, ms.len() - 1)) + (if iface_uses_union(
            fs,
            ms[ms.len() - 1],
        ) {
            trait_def_text(ms[ms.len() - 1])
        } else {
            Seq::empty()
        })
    }
}

/// The concatenated nominal wrapper structs of the type definitions, in
/// map order.
pub open spec fn typedefs_cat(tds: Seq<(Seq<char>, TypeDefinitionV)>) -> Option<Seq<char>>
    decreases tds,
{
    if tds.len() == 0 {
        Some(Seq::empty())
    } else {
        let init = typedefs_cat(tds.subrange(0, tds.len() - 1));
        let last = typedef_text(tds[tds.len() - 1].1);
        match (init, last) {
            (Some(a), Some(t)) => Some(a + t),
            _ => Option::None,
        }
    }
}

/// The concatenated wrappers of the functions, in map order.
pub open spec fn wrappers_cat(
    module: Seq<char>,
    fs: Seq<(Seq<char>, FunctionV)>,
) -> Option<Seq<char>>
    decreases fs,
{
    if fs.len() == 0 {
        Some(Seq::empty())
    } else {
        let init = wrappers_cat(module, fs.subrange(0, fs.len() - 1));
        let last = wrapper_text(module, fs[fs.len() - 1].1);
        match (init, last) {
            (Some(a), Some(t)) => Some(a + t),
            _ => Option::None,
        }
    }
}

/// The whole emitted source text: type definitions, then union traits,
/// then wrappers, wrapped in one namespace block unless `bare`.
pub open spec fn generate_text(module: Seq<char>, iv: InterfaceV, bare: bool) -> Option<Seq<char>> {
    match (typedefs_cat(iv.type_definitions), wrappers_cat(module, iv.functions)) {
        (Some(tds), Some(fns)) => {
            let inner = tds + union_traits_text(iv.functions) + fns;
            Some(
                if bare {
                    inner
                } else {
                    "pub mod "@ + module + " { "@ + inner + " }\n"@
                },
            )
        },
        _ => Option::None,
    }
}

/// Decides [`param_is_union_with`].
fn param_union_matches(t: &Type, m: (bool, bool, bool)) -> (r: bool)
    ensures
        r == param_is_union_with(t@, m),
{
    match t {
        Type::Union { args } => {
            proof {
                assert(t@ == TypeV::Union { args: crate::schema::view_type_seq(args@) });
            }
            match primitive_members(args) {
                Ok(mm) => mm.0 == m.0 && mm.1 == m.1 && mm.2 == m.2,
                Err(_) => false,
            }
        },
        _ => false,
    }
}

/// Decides [`fn_uses_union`].
fn fn_uses(f: &Function, m: (bool, bool, bool)) -> (r: bool)
    ensures
        r == fn_uses_union(f@, m),
{
    let ghost pv = f@.parameters;
    let n = f.parameters.len();
    let mut j: usize = 0;
    while j < n
        invariant
            j <= n,
            n == f.parameters@.len(),
            pv == f@.parameters,
            pv.len() == n,
            forall|k: int| 0 <= k < n ==> (#[trigger] pv[k]) == f.parameters@[k]@,
            forall|k: int| 0 <= k < j ==> !param_is_union_with((#[trigger] pv[k]).ty, m),
        decreases n - j,
    {
        if param_union_matches(&f.parameters[j].ty, m) {
            proof {
                assert(param_is_union_with(pv[j as int].ty, m));
            }
            return true;
        }
        j = j + 1;
    }
    false
}

/// Decides [`iface_uses_union`].
fn iface_uses(fs: &NamedMap<Function>, m: (bool, bool, bool)) -> (r: bool)
    ensures
        r == iface_uses_union(fs@, m),
{
    let n = fs.entries.len();
    let mut i: usize = 0;
    while i < n
        invariant
            i <= n,
            n == fs.entries@.len(),
            fs@.len() == n,
            forall|k: int| 0 <= k < n ==> (#[trigger] fs@[k]).1 == fs.entries@[k].1@,
            forall|k: int| 0 <= k < i ==> !fn_uses_union((#[trigger] fs@[k]).1, m),
        decreases n - i,
    {
        if fn_uses(&fs.entries[i].1, m) {
            proof {
                assert(fn_uses_union(fs@[i as int].1, m));
            }
            return true;
        }
        i = i + 1;
    }
    false
}

/// Appends the definition of one union capability trait.
fn append_trait_def(out: &mut String, m: (bool, bool, bool))
    ensures
        final(out)@ == old(out)@ + trait_def_text(m),
{
    let name = union_trait_ident(m);
    out.append("pub trait ");
    out.append(name.as_str());
    out.append(": ::pyo3::conversion::IntoPy<::pyo3::PyObject> {} ");
    if m.0 {
        out.append("impl ");
        out.append(name.as_str());
        out.append(" for i64 {} ");
    }
    if m.1 {
        out.append("impl ");
        out.append(name.as_str());
        out.append(" for f64 {} ");
    }
    if m.2 {
        out.append("impl ");
        out.append(name.as_str());
        out.append(" for &str {} ");
    }
    out.append("\n");
    proof {
        assert(out@ =~= old(out)@ + trait_def_text(m));
    }
}

/// Appends one trait definition when the interface uses the member set.
fn append_trait_if_used(out: &mut String, fs: &NamedMap<Function>, m: (bool, bool, bool))
    ensures
        final(out)@ == old(out)@ + (if iface_uses_union(fs@, m) {
            trait_def_text(m)
        } else {
            Seq::<char>::empty()
        }),
{
    if iface_uses(fs, m) {
        append_trait_def(out, m);
    } else {
        proof {
            assert(out@ =~= out@ + Seq::<char>::empty());
        }
    }
}

/// Renders the whole union-trait section of the output: one shared
/// capability trait per distinct set of primitive branches among the
/// interface's input-position unions.
pub fn generate_union_traits(interface: &Interface) -> (r: String)
    ensures
        r@ == union_traits_text(interface@.functions),
{
    let fs = &interface.functions;
    let mut out = String::new();
    let ghost am = all_masks();
    proof {
        assert(am.subrange(0, 0) =~= Seq::<(bool, bool, bool)>::empty());
        assert(traits_cat(fs@, am.subrange(0, 0)) =~= Seq::<char>::empty());
    }
    append_trait_if_used(&mut out, fs, (true, false, false));
    proof {
        assert(am.subrange(0, 1).subrange(0, 0) =~= am.subrange(0, 0));
        assert(am.subrange(0, 1)[0] == (true, false, false));
        assert(out@ =~= traits_cat(fs@, am.subrange(0, 1)));
    }
    append_trait_if_used(&mut out, fs, (false, true, false));
    proof {
        assert(am.subrange(0, 2).subrange(0, 1) =~= am.subrange(0, 1));
        assert(am.subrange(0, 2)[1] == (false, true, false));
        assert(out@ =~= traits_cat(fs@, am.subrange(0, 2)));
    }
    append_trait_if_used(&mut out, fs, (true, true, false));
    proof {
        assert(am.subrange(0, 3).subrange(0, 2) =~= am.subrange(0, 2));
        assert(am.subrange(0, 3)[2] == (true, true, false));
        assert(out@ =~= traits_cat(fs@, am.subrange(0, 3)));
    }
    append_trait_if_used(&mut out, fs, (false, false, true));
    proof {
        assert(am.subrange(0, 4).subrange(0, 3) =~= am.subrange(0, 3));
        assert(am.subrange(0, 4)[3] == (false, false, true));
        assert(out@ =~= traits_cat(fs@, am.subrange(0, 4)));
    }
    append_trait_if_used(&mut out, fs, (true, false, true));
    proof {
        assert(am.subrange(0, 5).subrange(0, 4) =~= am.subrange(0, 4));
        assert(am.subrange(0, 5)[4] == (true, false, true));
        assert(out@ =~= traits_cat(fs@, am.subrange(0, 5)));
    }
    append_trait_if_used(&mut out, fs, (false, true, true));
    proof {
        assert(am.subrange(0, 6).subrange(0, 5) =~= am.subrange(0, 5));
        assert(am.subrange(0, 6)[5] == (false, true, true));
        assert(out@ =~= traits_cat(fs@, am.subrange(0, 6)));
    }
    append_trait_if_used(&mut out, fs, (true, true, true));
    proof {
        assert(am.subrange(0, 7).subrange(0, 6) =~= am.subrange(0, 6));
        assert(am.subrange(0, 7)[6] == (true, true, true));
        assert(am.subrange(0, 7) =~= am);
        assert(out@ =~= traits_cat(fs@, am));
    }
    out
}

/// Renders the signature text of the first `n` parameters.
fn render_params_sig(ps: &Vec<Parameter>, n: usize) -> (r: Result<String, UnsupportedTypeError>)
    requires
        n <= ps@.len(),
    ensures
        match r {
            Ok(s) => params_sig(ps@.map_values(|p: Parameter| p@).subrange(0, n as int)) == Some(
                s@,
            ),
            Err(_) => params_sig(ps@.map_values(|p: Parameter| p@).subrange(0, n as int)) is None,
        },
    decreases n,
{
    let ghost pv = ps@.map_values(|p: Parameter| p@);
    if n == 0 {
        proof {
            assert(pv.subrange(0, 0) =~= Seq::<ParameterV>::empty());
        }
        return Ok(String::new());
    }
    proof {
        assert(pv.subrange(0, n as int).subrange(0, n - 1) =~= pv.subrange(0, n - 1));
        assert(pv.subrange(0, n as int)[n - 1] == ps@[n - 1]@);
    }
    let init = match render_params_sig(ps, n - 1) {
        Ok(v) => v,
        Err(e) => {
            return Err(e);
        },
    };
    let ty = match as_input_type(&ps[n - 1].ty) {
        Ok(v) => v,
        Err(e) => {
            return Err(e);
        },
    };
    let ident = as_ident(ps[n - 1].name.as_str());
    let ghost initv = init@;
    let mut out = init;
    out.append(", ");
    out.append(ident.as_str());
    out.append(": ");
    out.append(ty.as_str());
    proof {
        assert(out@ =~= initv + ", "@ + as_ident_text(ps@[n - 1]@.name) + ": "@ + ty@);
    }
    Ok(out)
}

/// Renders the argument tuple's interior for the first `n` parameters.
fn render_args_tuple(ps: &Vec<Parameter>, n: usize) -> (r: String)
    requires
        n <= ps@.len(),
    ensures
        r@ == args_tuple(ps@.map_values(|p: Parameter| p@).subrange(0, n as int)),
    decreases n,
{
    let ghost pv = ps@.map_values(|p: Parameter| p@);
    if n == 0 {
        proof {
            assert(pv.subrange(0, 0) =~= Seq::<ParameterV>::empty());
        }
        return String::new();
    }
    proof {
        assert(pv.subrange(0, n as int).subrange(0, n - 1) =~= pv.subrange(0, n - 1));
        assert(pv.subrange(0, n as int)[n - 1] == ps@[n - 1]@);
    }
    let init = render_args_tuple(ps, n - 1);
    let ident = as_ident(ps[n - 1].name.as_str());
    let ghost initv = init@;
    let mut out = init;
    out.append(ident.as_str());
    out.append(",");
    proof {
        assert(out@ =~= initv + as_ident_text(ps@[n - 1]@.name) + ","@);
    }
    out
}

/// Renders the adapter lines of the first `n` parameters.
fn render_convert_lines(ps: &Vec<Parameter>, n: usize) -> (r: String)
    requires
        n <= ps@.len(),
    ensures
        r@ == convert_lines(ps@.map_values(|p: Parameter| p@).subrange(0, n as int)),
    decreases n,
{
    let ghost pv = ps@.map_values(|p: Parameter| p@);
    if n == 0 {
        proof {
            assert(pv.subrange(0, 0) =~= Seq::<ParameterV>::empty());
        }
        return String::new();
    }
    proof {
        assert(pv.subrange(0, n as int).subrange(0, n - 1) =~= pv.subrange(0, n - 1));
        assert(pv.subrange(0, n as int)[n - 1] == ps@[n - 1]@);
    }
    let init = render_convert_lines(ps, n - 1);
    let ghost initv = init@;
    let mut out = init;
    let p = &ps[n - 1];
    match &p.ty {
        Type::Callable { args, .. } => {
            let ident = as_ident(p.name.as_str());
            proof {
                crate::schema::lemma_view_type_seq_index(args@);
                assert(p@.ty is Callable);
            }
            if args.len() == 0 {
                out.append("let ");
                out.append(ident.as_str());
                out.append(" = ::py2o2_runtime::as_pycfunc(py, move |_input: [usize; 0]| ");
                out.append(ident.as_str());
                out.append("())?; ");
            } else {
                out.append("let ");
                out.append(ident.as_str());
                out.append(" = ::py2o2_runtime::as_pycfunc(py, ");
                out.append(ident.as_str());
                out.append(")?; ");
            }
            proof {
                assert(out@ =~= initv + convert_line(ps@[n - 1]@));
            }
        },
        _ => {
            proof {
                assert(convert_line(ps@[n - 1]@) =~= Seq::<char>::empty());
                assert(out@ =~= initv + convert_line(ps@[n - 1]@));
            }
        },
    }
    out
}

/// Renders one function's wrapper.
pub fn generate_function(module: &str, f: &Function) -> (r: Result<String, UnsupportedTypeError>)
    ensures
        match r {
            Ok(s) => wrapper_text(module@, f@) == Some(s@),
            Err(_) => wrapper_text(module@, f@) is None,
        },
{
    let np = f.parameters.len();
    proof {
        assert(f@.parameters == f.parameters@.map_values(|p: Parameter| p@));
        assert(f@.parameters.subrange(0, f@.parameters.len() as int) =~= f@.parameters);
    }
    let sig = match render_params_sig(&f.parameters, np) {
        Ok(v) => v,
        Err(e) => {
            return Err(e);
        },
    };
    let out_ty = match as_output_type(&f.ret) {
        Ok(v) => v,
        Err(e) => {
            return Err(e);
        },
    };
    let convert = render_convert_lines(&f.parameters, np);
    let args = render_args_tuple(&f.parameters, np);
    let mut out = String::new();
    out.append("pub fn ");
    out.append(f.name.as_str());
    out.append("<'py>(py: ::pyo3::Python<'py>");
    out.append(sig.as_str());
    out.append(") -> ::pyo3::PyResult<");
    out.append(out_ty.as_str());
    out.append("> { ");
    out.append(convert.as_str());
    if matches!(&f.ret, Type::NoneType) {
        out.append("let _ = ");
    } else {
        out.append("let result = ");
    }
    out.append("py.import(\"");
    out.append(module);
    out.append("\")?.getattr(\"");
    out.append(f.name.as_str());
    out.append("\")?.call((");
    out.append(args.as_str());
    out.append("), None)?");
    if matches!(&f.ret, Type::NoneType) {
        out.append("; Ok(())");
    } else {
        out.append("; Ok(result.extract()?)");
    }
    out.append(" }\n");
    proof {
        assert(call_expr(module@, f@.name, f@.parameters) =~= "py.import(\""@ + module@
            + "\")?.getattr(\""@ + f@.name + "\")?.call(("@ + args@ + "), None)?"@);
        if f.ret is NoneType {
            assert(f@.ret is NoneType);
            assert(out@ =~= "pub fn "@ + f@.name + "<'py>(py: ::pyo3::Python<'py>"@ + sig@
                + ") -> ::pyo3::PyResult<"@ + out_ty@ + "> { "@ + convert@ + ("let _ = "@
                + call_expr(module@, f@.name, f@.parameters) + "; Ok(())"@) + " }\n"@);
        } else {
            assert(!(f@.ret is NoneType));
            assert(out@ =~= "pub fn "@ + f@.name + "<'py>(py: ::pyo3::Python<'py>"@ + sig@
                + ") -> ::pyo3::PyResult<"@ + out_ty@ + "> { "@ + convert@ + ("let result = "@
                + call_expr(module@, f@.name, f@.parameters) + "; Ok(result.extract()?)"@)
                + " }\n"@);
        }
    }
    Ok(out)
}

/// Renders one type definition's nominal wrapper struct.
pub fn generate_type_definitions(td: &TypeDefinition) -> (r: Result<String, UnsupportedTypeError>)
    ensures
        match r {
            Ok(s) => typedef_text(td@) == Some(s@),
            Err(_) => typedef_text(td@) is None,
        },
{
    let inner = match as_output_type(&td.supertype) {
        Ok(v) => v,
        Err(e) => {
            return Err(e);
        },
    };
    let mut out = String::new();
    out.append("#[derive(Debug, PartialEq, Eq, PartialOrd, Ord, Hash)] pub struct ");
    out.append(td.name.as_str());
    out.append("(pub ");
    out.append(inner.as_str());
    out.append("); impl ::pyo3::conversion::IntoPy<::pyo3::PyObject> for ");
    out.append(td.name.as_str());
    out.append(
        " { fn into_py(self, py: ::pyo3::Python<'_>) -> ::pyo3::PyObject { self.0.into_py(py) } }\n",
    );
    proof {
        assert(out@ =~= "#[derive(Debug, PartialEq, Eq, PartialOrd, Ord, Hash)] pub struct "@
            + td@.name + "(pub "@ + inner@
            + "); impl ::pyo3::conversion::IntoPy<::pyo3::PyObject> for "@ + td@.name
            + " { fn into_py(self, py: ::pyo3::Python<'_>) -> ::pyo3::PyObject { self.0.into_py(py) } }\n"@);
    }
    Ok(out)
}

/// Renders the type-definition section: the first `n` entries of the map.
fn render_typedefs(tds: &NamedMap<TypeDefinition>, n: usize) -> (r: Result<
    String,
    UnsupportedTypeError,
>)
    requires
        n <= tds@.len(),
    ensures
        match r {
            Ok(s) => typedefs_cat(tds@.subrange(0, n as int)) == Some(s@),
            Err(_) => typedefs_cat(tds@.subrange(0, n as int)) is None,
        },
    decreases n,
{
    if n == 0 {
        proof {
            assert(tds@.subrange(0, 0) =~= Seq::<(Seq<char>, TypeDefinitionV)>::empty());
        }
        return Ok(String::new());
    }
    proof {
        assert(tds@.subrange(0, n as int).subrange(0, n - 1) =~= tds@.subrange(0, n - 1));
        assert(tds@.subrange(0, n as int)[n - 1] == tds@[n - 1]);
        assert(tds@[n - 1].1 == tds.entries@[n - 1].1@);
    }
    let init = match render_typedefs(tds, n - 1) {
        Ok(v) => v,
        Err(e) => {
            return Err(e);
        },
    };
    let last = match generate_type_definitions(&tds.entries[n - 1].1) {
        Ok(v) => v,
        Err(e) => {
            return Err(e);
        },
    };
    let ghost initv = init@;
    let mut out = init;
    out.append(last.as_str());
    proof {
        assert(out@ =~= initv + last@);
    }
    Ok(out)
}

/// Renders the wrapper section: the first `n` entries of the function map.
fn render_wrappers(module: &str, fs: &NamedMap<Function>, n: usize) -> (r: Result<
    String,
    UnsupportedTypeError,
>)
    requires
        n <= fs@.len(),
    ensures
        match r {
            Ok(s) => wrappers_cat(module@, fs@.subrange(0, n as int)) == Some(s@),
            Err(_) => wrappers_cat(module@, fs@.subrange(0, n as int)) is None,
        },
    decreases n,
{
    if n == 0 {
        proof {
            assert(fs@.subrange(0, 0) =~= Seq::<(Seq<char>, FunctionV)>::empty());
        }
        return Ok(String::new());
    }
    proof {
        assert(fs@.subrange(0, n as int).subrange(0, n - 1) =~= fs@.subrange(0, n - 1));
        assert(fs@.subrange(0, n as int)[n - 1] == fs@[n - 1]);
        assert(fs@[n - 1].1 == fs.entries@[n - 1].1@);
    }
    let init = match render_wrappers(module, fs, n - 1) {
        Ok(v) => v,
        Err(e) => {
            return Err(e);
        },
    };
    let last = match generate_function(module, &fs.entries[n - 1].1) {
        Ok(v) => v,
        Err(e) => {
            return Err(e);
        },
    };
    let ghost initv = init@;
    let mut out = init;
    out.append(last.as_str());
    proof {
        assert(out@ =~= initv + last@);
    }
    Ok(out)
}

/// Emits the whole source text for an interface: type definitions first,
/// then the shared union capability traits, then one wrapper per function;
/// wrapped in one namespace block named after the module unless `bare`.
/// Equal inputs give byte-identical output; a type the mapper cannot
/// represent fails the whole generation.
pub fn generate(module_name: &str, interface: &Interface, bare: bool) -> (r: Result<
    String,
    UnsupportedTypeError,
>)
    ensures
        match r {
            Ok(s) => generate_text(module_name@, interface@, bare) == Some(s@),
            Err(_) => generate_text(module_name@, interface@, bare) is None,
        },
{
    let ntd = interface.type_definitions.entries.len();
    let nfn = interface.functions.entries.len();
    proof {
        assert(interface@.type_definitions.subrange(
            0,
            interface@.type_definitions.len() as int,
        ) =~= interface@.type_definitions);
        assert(interface@.functions.subrange(0, interface@.functions.len() as int)
            =~= interface@.functions);
    }
    let tds = match render_typedefs(&interface.type_definitions, ntd) {
        Ok(v) => v,
        Err(e) => {
            return Err(e);
        },
    };
    let fns = match render_wrappers(module_name, &interface.functions, nfn) {
        Ok(v) => v,
        Err(e) => {
            return Err(e);
        },
    };
    let traits = generate_union_traits(interface);
    let ghost inner_spec = tds@ + union_traits_text(interface@.functions) + fns@;
    if bare {
        let ghost tdsv = tds@;
        let mut out = tds;
        out.append(traits.as_str());
        out.append(fns.as_str());
        proof {
            assert(out@ =~= inner_spec);
        }
        Ok(out)
    } else {
        let mut out = String::new();
        out.append("pub mod ");
        out.append(module_name);
        out.append(" { ");
        out.append(tds.as_str());
        out.append(traits.as_str());
        out.append(fns.as_str());
        out.append(" }\n");
        proof {
            assert(out@ =~= "pub mod "@ + module_name@ + " { "@ + inner_spec + " }\n"@);
        }
        Ok(out)
    }
}

/// Emission is deterministic: from one module name, interface and flag
/// comes exactly one text, so two runs of the emitter on equal inputs give
/// byte-identical output.
pub proof fn lemma_generate_deterministic(
    module: Seq<char>,
    iv: InterfaceV,
    bare: bool,
    out1: Seq<char>,
    out2: Seq<char>,
)
    requires
        generate_text(module, iv, bare) == Some(out1),
        generate_text(module, iv, bare) == Some(out2),
    ensures
        out1 == out2,
{
}

/// Union sharing: two branch lists over primitives that are equal as sets
/// map to the same capability trait, so two functions with set-equal union
/// parameters reference one shared abstraction.
pub proof fn lemma_union_sharing(a1: Seq<TypeV>, a2: Seq<TypeV>)
    requires
        all_primitive(a1),
        all_primitive(a2),
        a1.to_set() == a2.to_set(),
    ensures
        union_members(a1) == union_members(a2),
        input_type(TypeV::Union { args: a1 }) == input_type(TypeV::Union { args: a2 }),
{
    assert forall|x: TypeV| a1.contains(x) == a2.contains(x) by {
        if a1.contains(x) {
            assert(a1.to_set().contains(x));
        }
        if a2.contains(x) {
            assert(a2.to_set().contains(x));
        }
        if a1.to_set().contains(x) {
            assert(a1.contains(x));
        }
        if a2.to_set().contains(x) {
            assert(a2.contains(x));
        }
    }
    assert(union_members(a1) == union_members(a2));
}

/// The emitter generates each used union abstraction exactly once: the
/// trait section walks the seven possible member sets in a fixed order,
/// the seven are pairwise distinct, and every member set a well-formed
/// union parameter can use is among them; so a used set's trait comes from
/// exactly one slot of that walk.
pub proof fn lemma_union_traits_once(fs: Seq<(Seq<char>, FunctionV)>)
    ensures
        all_masks().no_duplicates(),
        forall|m: (bool, bool, bool)|
            (#[trigger] iface_uses_union(fs, m) && (m.0 || m.1 || m.2)) ==> all_masks().contains(
                m,
            ),
{
    let am = all_masks();
    assert(am.no_duplicates()) by {
        assert forall|i: int, j: int| 0 <= i < j < am.len() implies am[i] != am[j] by {
            assert(am[0] == (true, false, false));
            assert(am[1] == (false, true, false));
            assert(am[2] == (true, true, false));
            assert(am[3] == (false, false, true));
            assert(am[4] == (true, false, true));
            assert(am[5] == (false, true, true));
            assert(am[6] == (true, true, true));
        }
    }
    assert forall|m: (bool, bool, bool)|
        (#[trigger] iface_uses_union(fs, m) && (m.0 || m.1 || m.2)) implies all_masks().contains(
        m,
    ) by {
        if m == (true, false, false) {
            assert(am[0] == m);
        } else if m == (false, true, false) {
            assert(am[1] == m);
        } else if m == (true, true, false) {
            assert(am[2] == m);
        } else if m == (false, false, true) {
            assert(am[3] == m);
        } else if m == (true, false, true) {
            assert(am[4] == m);
        } else if m == (false, true, true) {
            assert(am[5] == m);
        } else {
            assert(am[6] == m);
        }
    }
}

} // verus!
