use vstd::prelude::*;
use std::fmt::Write;
use crate::remangle::path::{
    ArgModel,
    BracesModel,
    Path,
    PathArg,
    PathBraces,
    PathModel,
    PathSegment,
    SegModel,
    arg_model,
    args_model,
    braces_model,
    path_model,
    path_opt_model,
    paths_model,
    seg_model,
    segs_model,
    str_opt_model,
    lemma_segs_model,
    lemma_paths_model,
    lemma_args_model,
};
use crate::text::append_str;

verus! {

/// What `<str as Debug>::fmt` writes for a string: the string in double
/// quotes, with double quotes, backslashes, control characters and some
/// other characters escaped (single quotes are left as they are).
pub uninterp spec fn str_debug(s: Seq<char>) -> Seq<char>;

/// `write!` with `{:?}` onto a `String`: appends the `Debug` form of `s`.
/// Writing to a `String` does not fail.
#[verifier::external_body]
fn append_debug(out: &mut String, s: &str)
    ensures
        final(out)@ == old(out)@ + str_debug(s@),
{
    let _ = write!(out, "{:?}", s);
}

/// The debug form of a path: a list of its segments with `"::"` between them.
pub open spec fn debug_path(p: PathModel) -> Seq<char>
    decreases p, 0int,
{
    "["@ + debug_segs(p.segments, 0, p.segments.len() as int) + "]"@
}

/// The entries of segments `from` up to `to`, with `"::"` between them.
pub open spec fn debug_segs(segs: Seq<SegModel>, from: int, to: int) -> Seq<char>
    decreases segs, to - from,
{
    if from < 0 || to > segs.len() || to <= from {
        Seq::empty()
    } else if to == from + 1 {
        debug_seg(segs[from])
    } else {
        debug_segs(segs, from, to - 1) + ", "@ + str_debug("::"@) + ", "@ + debug_seg(segs[to - 1])
    }
}

/// The entries of paths `from` up to `to`, with the string `sep` between them.
pub open spec fn debug_paths(ps: Seq<PathModel>, sep: Seq<char>, from: int, to: int) -> Seq<char>
    decreases ps, to - from,
{
    if from < 0 || to > ps.len() || to <= from {
        Seq::empty()
    } else if to == from + 1 {
        debug_path(ps[from])
    } else {
        debug_paths(ps, sep, from, to - 1) + ", "@ + str_debug(sep) + ", "@ + debug_path(ps[to - 1])
    }
}

/// The entries of generic arguments `from` up to `to`, with `","` between them.
pub open spec fn debug_args(args: Seq<ArgModel>, from: int, to: int) -> Seq<char>
    decreases args, to - from,
{
    if from < 0 || to > args.len() || to <= from {
        Seq::empty()
    } else if to == from + 1 {
        debug_arg(args[from])
    } else {
        debug_args(args, from, to - 1) + ", "@ + str_debug(","@) + ", "@ + debug_arg(args[to - 1])
    }
}

/// A generic argument: its path, or a list of the name, `" = "` and the value.
pub open spec fn debug_arg(a: ArgModel) -> Seq<char>
    decreases a, 0int,
{
    match a.name {
        Some(n) => "["@ + debug_path(n) + ", "@ + str_debug(" = "@) + ", "@ + debug_path(a.value) + "]"@,
        None => debug_path(a.value),
    }
}

/// `", "` and the entries of a nonempty run of paths with `sep` between them.
pub open spec fn debug_more_paths(ps: Seq<PathModel>, sep: Seq<char>) -> Seq<char>
    decreases ps, ps.len() + 1,
{
    if ps.len() == 0 {
        Seq::empty()
    } else {
        ", "@ + debug_paths(ps, sep, 0, ps.len() as int)
    }
}

/// The debug form of an optional string, as `Option`'s own.
pub open spec fn debug_opt_str(s: Option<Seq<char>>) -> Seq<char> {
    match s {
        Some(s) => "Some("@ + str_debug(s) + ")"@,
        None => "None"@,
    }
}

/// The version of an identifier, as entries in brackets after its name.
pub open spec fn debug_version(version: Option<Seq<char>>) -> Seq<char> {
    match version {
        Some(v) => ", "@ + str_debug("["@) + ", "@ + str_debug(v) + ", "@ + str_debug("]"@),
        None => Seq::empty(),
    }
}

/// The generic arguments of an identifier, as entries in angle brackets.
pub open spec fn debug_generics(turbofish: bool, tys: Seq<ArgModel>) -> Seq<char>
    decreases tys, tys.len() + 1,
{
    if tys.len() == 0 {
        Seq::empty()
    } else {
        (if turbofish { ", "@ + str_debug("::"@) } else { Seq::empty() }) + ", "@ + str_debug("<"@) + ", "@
            + debug_args(tys, 0, tys.len() as int) + ", "@ + str_debug(">"@)
    }
}

/// The entries of an identifier: its name, its version in brackets, and
/// its generic arguments in angle brackets.
pub open spec fn debug_ident(name: Seq<char>, version: Option<Seq<char>>, turbofish: bool, tys: Seq<ArgModel>) -> Seq<char>
    decreases tys, tys.len() + 2,
{
    str_debug(name) + debug_version(version) + debug_generics(turbofish, tys)
}

/// The entries of a segment.
pub open spec fn debug_seg_entries(s: SegModel) -> Seq<char>
    decreases s, 1int,
{
    match s {
        SegModel::Ident { name, version, turbofish, tys, .. } => debug_ident(name, version, turbofish, tys),
        SegModel::ImplFor { trait_for, for_ty } => str_debug("<impl "@) + ", "@ + debug_path(trait_for) + ", "@
            + str_debug(" for "@) + ", "@ + debug_path(for_ty) + ", "@ + str_debug(">"@),
        SegModel::Ty { ty } => str_debug("<"@) + ", "@ + debug_path(ty) + ", "@ + str_debug(">"@),
        SegModel::As { ty, as_trait } => str_debug("<"@) + ", "@ + debug_path(ty) + ", "@ + str_debug(" as "@)
            + ", "@ + debug_path(as_trait) + ", "@ + str_debug(">"@),
        SegModel::Pointy { raw, mutable, ty } => str_debug(
            if raw {
                if mutable {
                    "*mut "@
                } else {
                    "*const "@
                }
            } else {
                if mutable {
                    "&mut "@
                } else {
                    "&"@
                }
            },
        ) + ", "@ + debug_path(ty),
        SegModel::Tuple { tys } => str_debug("("@) + debug_more_paths(tys, ","@) + (if tys.len() == 1 {
            ", "@ + str_debug(","@)
        } else {
            Seq::empty()
        }) + ", "@ + str_debug(")"@),
        SegModel::FnPtr { tys, output } => str_debug("fn"@) + ", "@ + str_debug("("@) + debug_more_paths(tys, ","@)
            + ", "@ + str_debug(")"@) + match output {
            Some(o) => ", "@ + str_debug("->"@) + ", "@ + debug_path(o),
            None => Seq::empty(),
        },
        SegModel::Array { ty, length, length_ty } => str_debug("["@) + ", "@ + debug_path(ty) + ", "@
            + str_debug(";"@) + ", "@ + debug_opt_str(length) + ", "@ + str_debug(":"@) + ", "@ + match length_ty {
            Some(lt) => "Some("@ + debug_path(lt) + ")"@,
            None => "None"@,
        } + ", "@ + str_debug("]"@),
        SegModel::Dyn { tys } => str_debug("dyn"@) + debug_more_paths(tys, "+"@),
    }
}

/// The debug form of a segment: the list of its entries.
pub open spec fn debug_seg(s: SegModel) -> Seq<char>
    decreases s, 2int,
{
    "["@ + debug_seg_entries(s) + "]"@
}

/// The debug form of braces: the list of their parts.
pub open spec fn debug_braces(b: BracesModel) -> Seq<char> {
    "["@ + match b {
        BracesModel::VTable(n) => str_debug("{"@) + ", "@ + str_debug("shim:vtable#"@) + ", "@ + str_debug(n)
            + ", "@ + str_debug("}"@),
        BracesModel::Closure(n) => str_debug("{"@) + ", "@ + str_debug("closure#"@) + ", "@ + str_debug(n)
            + ", "@ + str_debug("}"@),
        BracesModel::UnknownVTable => str_debug("{"@) + ", "@ + str_debug("{"@) + ", "@ + str_debug(
            "vtable.shim"@,
        ) + ", "@ + str_debug("}"@) + ", "@ + str_debug("}"@),
        BracesModel::UnknownClosure => str_debug("{"@) + ", "@ + str_debug("{"@) + ", "@ + str_debug("closure"@)
            + ", "@ + str_debug("}"@) + ", "@ + str_debug("}"@),
    } + "]"@
}

/// Writes debug forms one after the other.
struct DebugWriter {
    output: String,
}

impl DebugWriter {
    closed spec fn written(&self) -> Seq<char> {
        self.output@
    }

    fn new() -> (r: Self)
        ensures
            r.written() == Seq::<char>::empty(),
    {
        DebugWriter { output: String::new() }
    }

    fn write(&mut self, s: &str)
        ensures
            final(self).written() == old(self).written() + s@,
    {
        append_str(&mut self.output, s)
    }

    /// Writes `s` as a string entry: quoted and escaped.
    fn quote(&mut self, s: &str)
        ensures
            final(self).written() == old(self).written() + str_debug(s@),
    {
        append_debug(&mut self.output, s)
    }

    fn path(&mut self, path: &Path)
        ensures
            final(self).written() == old(self).written() + debug_path(path_model(*path)),
        decreases path, 0int,
    {
        let ghost segs = segs_model(path.segments@);
        proof {
            lemma_segs_model(path.segments@);
        }
        let ghost before = self.written();
        self.write("[");
        let ghost start = self.written();
        let n = path.segments.len();
        let mut i: usize = 0;
        while i < n
            invariant
                segs == segs_model(path.segments@),
                segs.len() == path.segments@.len(),
                n == segs.len(),
                forall|j: int| 0 <= j < segs.len() ==> #[trigger] segs[j] == seg_model(path.segments@[j]),
                i <= n,
                self.written() == start + debug_segs(segs, 0, i as int),
            decreases n - i,
        {
            if i > 0 {
                self.write(", ");
                self.quote("::");
                self.write(", ");
            }
            self.segment(&path.segments[i]);
            assert(debug_segs(segs, 0, i + 1) == (if i == 0 {
                debug_seg(segs[i as int])
            } else {
                debug_segs(segs, 0, i as int) + ", "@ + str_debug("::"@) + ", "@ + debug_seg(segs[i as int])
            }));
            i = i + 1;
        }
        self.write("]");
        assert(self.written() =~= before + debug_path(path_model(*path)));
    }

    /// Writes the paths of `ps` as entries with the string `sep` between them.
    fn paths(&mut self, ps: &Vec<Path>, sep: &str)
        ensures
            final(self).written() == old(self).written() + debug_paths(paths_model(ps@), sep@, 0, ps@.len() as int),
        decreases ps, 0int,
    {
        let ghost pm = paths_model(ps@);
        proof {
            lemma_paths_model(ps@);
        }
        let ghost before = self.written();
        let mut i: usize = 0;
        while i < ps.len()
            invariant
                pm == paths_model(ps@),
                pm.len() == ps@.len(),
                forall|j: int| 0 <= j < pm.len() ==> #[trigger] pm[j] == path_model(ps@[j]),
                i <= ps@.len(),
                self.written() == before + debug_paths(pm, sep@, 0, i as int),
            decreases ps@.len() - i,
        {
            if i > 0 {
                self.write(", ");
                self.quote(sep);
                self.write(", ");
            }
            self.path(&ps[i]);
            i = i + 1;
        }
    }

    /// Writes `", "` and the entries of `ps`, unless `ps` is empty.
    fn more_paths(&mut self, ps: &Vec<Path>, sep: &str)
        ensures
            final(self).written() == old(self).written() + debug_more_paths(paths_model(ps@), sep@),
        decreases ps, 1int,
    {
        proof {
            lemma_paths_model(ps@);
        }
        if ps.len() > 0 {
            let ghost before = self.written();
            self.write(", ");
            self.paths(ps, sep);
            assert(self.written() =~= before + debug_more_paths(paths_model(ps@), sep@));
        }
    }

    fn arg(&mut self, a: &PathArg)
        ensures
            final(self).written() == old(self).written() + debug_arg(arg_model(*a)),
        decreases a, 0int,
    {
        let ghost before = self.written();
        match &a.name {
            Some(n) => {
                self.write("[");
                self.path(n);
                self.write(", ");
                self.quote(" = ");
                self.write(", ");
                self.path(&a.value);
                self.write("]");
                assert(self.written() =~= before + debug_arg(arg_model(*a)));
            },
            None => self.path(&a.value),
        }
    }

    fn args(&mut self, args: &Vec<PathArg>)
        ensures
            final(self).written() == old(self).written() + debug_args(args_model(args@), 0, args@.len() as int),
        decreases args, 0int,
    {
        let ghost am = args_model(args@);
        proof {
            lemma_args_model(args@);
        }
        let ghost before = self.written();
        let mut i: usize = 0;
        while i < args.len()
            invariant
                am == args_model(args@),
                am.len() == args@.len(),
                forall|j: int| 0 <= j < am.len() ==> #[trigger] am[j] == arg_model(args@[j]),
                i <= args@.len(),
                self.written() == before + debug_args(am, 0, i as int),
            decreases args@.len() - i,
        {
            if i > 0 {
                self.write(", ");
                self.quote(",");
                self.write(", ");
            }
            self.arg(&args[i]);
            i = i + 1;
        }
    }

    fn opt_str(&mut self, s: &Option<&str>)
        ensures
            final(self).written() == old(self).written() + debug_opt_str(str_opt_model(*s)),
    {
        let ghost before = self.written();
        match s {
            Some(s) => {
                self.write("Some(");
                self.quote(s);
                self.write(")");
                assert(self.written() =~= before + debug_opt_str(str_opt_model(Some(*s))));
            },
            None => self.write("None"),
        }
    }

    fn version(&mut self, version: &Option<&str>)
        ensures
            final(self).written() == old(self).written() + debug_version(str_opt_model(*version)),
    {
        let ghost before = self.written();
        if let Some(v) = version {
            self.write(", ");
            self.quote("[");
            self.write(", ");
            self.quote(v);
            self.write(", ");
            self.quote("]");
            assert(self.written() =~= before + debug_version(str_opt_model(Some(*v))));
        }
    }

    #[verifier::spinoff_prover]
    #[verifier::rlimit(100)]
    fn generics(&mut self, turbofish: bool, tys: &Vec<PathArg>)
        ensures
            final(self).written() == old(self).written() + debug_generics(turbofish, args_model(tys@)),
        decreases tys, 1int,
    {
        let ghost before = self.written();
        proof {
            lemma_args_model(tys@);
        }
        if tys.len() > 0 {
            if turbofish {
                self.write(", ");
                self.quote("::");
            }
            let ghost opened = self.written();
            self.write(", ");
            self.quote("<");
            self.write(", ");
            self.args(tys);
            self.write(", ");
            self.quote(">");
            assert(self.written() =~= opened + (", "@ + str_debug("<"@) + ", "@ + debug_args(
                args_model(tys@),
                0,
                tys@.len() as int,
            ) + ", "@ + str_debug(">"@)));
            assert(self.written() =~= before + debug_generics(turbofish, args_model(tys@)));
        }
    }

    fn ident(&mut self, name: &str, version: &Option<&str>, turbofish: bool, tys: &Vec<PathArg>)
        ensures
            final(self).written() == old(self).written() + debug_ident(
                name@,
                str_opt_model(*version),
                turbofish,
                args_model(tys@),
            ),
        decreases tys, 2int,
    {
        let ghost before = self.written();
        self.quote(name);
        self.version(version);
        self.generics(turbofish, tys);
        assert(self.written() =~= before + (str_debug(name@) + debug_version(str_opt_model(*version))
            + debug_generics(turbofish, args_model(tys@))));
    }

    #[verifier::spinoff_prover]
    #[verifier::rlimit(80)]
    fn single_entries(&mut self, segment: &PathSegment)
        requires
            segment is Ident || segment is ImplFor || segment is Ty || segment is As || segment is Pointy,
        ensures
            final(self).written() == old(self).written() + debug_seg_entries(seg_model(*segment)),
        decreases segment, 1int,
    {
        let ghost s1 = self.written();
        match segment {
            PathSegment::Ident { name, version, turbofish, tys, .. } => {
                self.ident(name, version, *turbofish, tys);
                assert(self.written() =~= s1 + debug_seg_entries(seg_model(*segment)));
            },
            PathSegment::ImplFor { trait_for, for_ty } => {
                self.quote("<impl ");
                self.write(", ");
                self.path(trait_for);
                self.write(", ");
                self.quote(" for ");
                self.write(", ");
                self.path(for_ty);
                self.write(", ");
                self.quote(">");
                assert(self.written() =~= s1 + debug_seg_entries(seg_model(*segment)));
            },
            PathSegment::Ty { ty } => {
                self.quote("<");
                self.write(", ");
                self.path(ty);
                self.write(", ");
                self.quote(">");
                assert(self.written() =~= s1 + debug_seg_entries(seg_model(*segment)));
            },
            PathSegment::As { ty, as_trait } => {
                self.quote("<");
                self.write(", ");
                self.path(ty);
                self.write(", ");
                self.quote(" as ");
                self.write(", ");
                self.path(as_trait);
                self.write(", ");
                self.quote(">");
                assert(self.written() =~= s1 + debug_seg_entries(seg_model(*segment)));
            },
            PathSegment::Pointy { raw, mutable, ty } => {
                if *raw {
                    if *mutable {
                        self.quote("*mut ");
                    } else {
                        self.quote("*const ");
                    }
                } else {
                    if *mutable {
                        self.quote("&mut ");
                    } else {
                        self.quote("&");
                    }
                }
                self.write(", ");
                self.path(ty);
                assert(self.written() =~= s1 + debug_seg_entries(seg_model(*segment)));
            },
            _ => {},
        }
    }

    #[verifier::spinoff_prover]
    fn tuple_entries(&mut self, segment: &PathSegment)
        requires
            segment is Tuple,
        ensures
            final(self).written() == old(self).written() + debug_seg_entries(seg_model(*segment)),
        decreases segment, 1int,
    {
        let ghost s1 = self.written();
        match segment {
            PathSegment::Tuple { tys } => {
                self.quote("(");
                self.more_paths(tys, ",");
                if tys.len() == 1 {
                    self.write(", ");
                    self.quote(",");
                }
                self.write(", ");
                self.quote(")");
                assert(self.written() =~= s1 + debug_seg_entries(seg_model(*segment)));
            },
            _ => {},
        }
    }

    #[verifier::spinoff_prover]
    #[verifier::rlimit(100)]
    fn fnptr_entries(&mut self, segment: &PathSegment)
        requires
            segment is FnPtr,
        ensures
            final(self).written() == old(self).written() + debug_seg_entries(seg_model(*segment)),
        decreases segment, 1int,
    {
        let ghost s1 = self.written();
        match segment {
            PathSegment::FnPtr { tys, output } => {
                self.quote("fn");
                self.write(", ");
                self.quote("(");
                self.more_paths(tys, ",");
                self.write(", ");
                self.quote(")");
                if let Some(output) = output {
                    self.write(", ");
                    self.quote("->");
                    self.write(", ");
                    self.path(output);
                }
                assert(self.written() =~= s1 + debug_seg_entries(seg_model(*segment)));
            },
            _ => {},
        }
    }

    #[verifier::spinoff_prover]
    #[verifier::rlimit(100)]
    fn array_entries(&mut self, segment: &PathSegment)
        requires
            segment is Array,
        ensures
            final(self).written() == old(self).written() + debug_seg_entries(seg_model(*segment)),
        decreases segment, 1int,
    {
        let ghost s1 = self.written();
        match segment {
            PathSegment::Array { ty, length, length_ty } => {
                self.quote("[");
                self.write(", ");
                self.path(ty);
                let ghost c1 = self.written();
                assert(c1 =~= s1 + (str_debug("["@) + ", "@ + debug_path(path_model(*ty))));
                self.write(", ");
                self.quote(";");
                self.write(", ");
                self.opt_str(length);
                let ghost c2 = self.written();
                assert(c2 =~= c1 + (", "@ + str_debug(";"@) + ", "@ + debug_opt_str(str_opt_model(*length))));
                self.write(", ");
                self.quote(":");
                self.write(", ");
                let ghost c3 = self.written();
                assert(c3 =~= c2 + (", "@ + str_debug(":"@) + ", "@));
                match length_ty {
                    Some(lt) => {
                        self.write("Some(");
                        self.path(lt);
                        self.write(")");
                    },
                    None => self.write("None"),
                }
                self.write(", ");
                self.quote("]");
                assert(self.written() =~= s1 + debug_seg_entries(seg_model(*segment)));
            },
            _ => {},
        }
    }

    #[verifier::spinoff_prover]
    fn dyn_entries(&mut self, segment: &PathSegment)
        requires
            segment is Dyn,
        ensures
            final(self).written() == old(self).written() + debug_seg_entries(seg_model(*segment)),
        decreases segment, 1int,
    {
        let ghost s1 = self.written();
        match segment {
            PathSegment::Dyn { tys } => {
                self.quote("dyn");
                self.more_paths(tys, "+");
                assert(self.written() =~= s1 + debug_seg_entries(seg_model(*segment)));
            },
            _ => {},
        }
    }

    fn segment(&mut self, segment: &PathSegment)
        ensures
            final(self).written() == old(self).written() + debug_seg(seg_model(*segment)),
        decreases segment, 2int,
    {
        let ghost s0 = self.written();
        self.write("[");
        match segment {
            PathSegment::Ident { .. } | PathSegment::ImplFor { .. } | PathSegment::Ty { .. } | PathSegment::As { .. }
            | PathSegment::Pointy { .. } => self.single_entries(segment),
            PathSegment::Tuple { .. } => self.tuple_entries(segment),
            PathSegment::FnPtr { .. } => self.fnptr_entries(segment),
            PathSegment::Array { .. } => self.array_entries(segment),
            PathSegment::Dyn { .. } => self.dyn_entries(segment),
        }
        self.write("]");
        assert(self.written() =~= s0 + debug_seg(seg_model(*segment)));
    }

    fn braces(&mut self, b: &PathBraces)
        ensures
            final(self).written() == old(self).written() + debug_braces(braces_model(*b)),
    {
        let ghost s0 = self.written();
        self.write("[");
        match b {
            PathBraces::VTable { vtable } => {
                self.quote("{");
                self.write(", ");
                self.quote("shim:vtable#");
                self.write(", ");
                self.quote(vtable);
                self.write(", ");
                self.quote("}");
            },
            PathBraces::Closure { closure } => {
                self.quote("{");
                self.write(", ");
                self.quote("closure#");
                self.write(", ");
                self.quote(closure);
                self.write(", ");
                self.quote("}");
            },
            PathBraces::UnknownVTable => {
                self.quote("{");
                self.write(", ");
                self.quote("{");
                self.write(", ");
                self.quote("vtable.shim");
                self.write(", ");
                self.quote("}");
                self.write(", ");
                self.quote("}");
            },
            PathBraces::UnknownClosure => {
                self.quote("{");
                self.write(", ");
                self.quote("{");
                self.write(", ");
                self.quote("closure");
                self.write(", ");
                self.quote("}");
                self.write(", ");
                self.quote("}");
            },
        }
        self.write("]");
        assert(self.written() =~= s0 + debug_braces(braces_model(*b)));
    }
}

impl<'a> Path<'a> {
    /// The path in its debug form: the list of its segments, with `"::"`
    /// between them, each segment the list of its parts.
    pub fn debug_string(&self) -> (r: String)
        ensures
            r@ == debug_path(path_model(*self)),
    {
        let mut w = DebugWriter::new();
        w.path(self);
        w.output
    }
}

impl<'a> PathSegment<'a> {
    /// The segment in its debug form: the list of its parts.
    pub fn debug_string(&self) -> (r: String)
        ensures
            r@ == debug_seg(seg_model(*self)),
    {
        let mut w = DebugWriter::new();
        w.segment(self);
        w.output
    }
}

impl<'a> PathBraces<'a> {
    /// The braces in their debug form: the list of their parts.
    pub fn debug_string(&self) -> (r: String)
        ensures
            r@ == debug_braces(braces_model(*self)),
    {
        let mut w = DebugWriter::new();
        w.braces(self);
        w.output
    }
}

} // verus!
