use vstd::prelude::*;

verus! {

/// What a pair of braces in a symbol path says: a shim or a closure, with
/// or without its number.
pub enum PathBraces<'a> {
    UnknownVTable,
    UnknownClosure,
    VTable { vtable: &'a str },
    Closure { closure: &'a str },
}

/// A generic argument, possibly an associated type binding `name = value`.
pub struct PathArg<'a> {
    pub name: Option<Path<'a>>,
    pub value: Path<'a>,
}

/// One segment of a demangled Rust symbol path.
pub enum PathSegment<'a> {
    Ident {
        name: &'a str,
        version: Option<&'a str>,
        braces: Option<PathBraces<'a>>,
        turbofish: bool,
        tys: Vec<PathArg<'a>>,
    },
    ImplFor { trait_for: Path<'a>, for_ty: Path<'a> },
    Ty { ty: Path<'a> },
    As { ty: Path<'a>, as_trait: Path<'a> },
    Pointy { raw: bool, mutable: bool, ty: Path<'a> },
    Tuple { tys: Vec<Path<'a>> },
    FnPtr { tys: Vec<Path<'a>>, output: Option<Path<'a>> },
    Array { ty: Path<'a>, length: Option<&'a str>, length_ty: Option<Path<'a>> },
    Dyn { tys: Vec<Path<'a>> },
}

/// A demangled Rust symbol path: segments joined by `::`.
pub struct Path<'a> {
    pub segments: Vec<PathSegment<'a>>,
}

/// `PathBraces` as a mathematical value.
pub enum BracesModel {
    UnknownVTable,
    UnknownClosure,
    VTable(Seq<char>),
    Closure(Seq<char>),
}

/// `PathSegment` as a mathematical value.
pub enum SegModel {
    Ident {
        name: Seq<char>,
        version: Option<Seq<char>>,
        braces: Option<BracesModel>,
        turbofish: bool,
        tys: Seq<ArgModel>,
    },
    ImplFor { trait_for: PathModel, for_ty: PathModel },
    Ty { ty: PathModel },
    As { ty: PathModel, as_trait: PathModel },
    Pointy { raw: bool, mutable: bool, ty: PathModel },
    Tuple { tys: Seq<PathModel> },
    FnPtr { tys: Seq<PathModel>, output: Option<PathModel> },
    Array { ty: PathModel, length: Option<Seq<char>>, length_ty: Option<PathModel> },
    Dyn { tys: Seq<PathModel> },
}

/// `Path` as a mathematical value.
pub struct PathModel {
    pub segments: Seq<SegModel>,
}

/// `PathArg` as a mathematical value.
pub struct ArgModel {
    pub name: Option<PathModel>,
    pub value: PathModel,
}

pub open spec fn str_opt_model(s: Option<&str>) -> Option<Seq<char>> {
    match s {
        Some(s) => Some(s@),
        None => None,
    }
}

pub open spec fn braces_model(b: PathBraces) -> BracesModel {
    match b {
        PathBraces::UnknownVTable => BracesModel::UnknownVTable,
        PathBraces::UnknownClosure => BracesModel::UnknownClosure,
        PathBraces::VTable { vtable } => BracesModel::VTable(vtable@),
        PathBraces::Closure { closure } => BracesModel::Closure(closure@),
    }
}

pub open spec fn braces_opt_model(b: Option<PathBraces>) -> Option<BracesModel> {
    match b {
        Some(b) => Some(braces_model(b)),
        None => None,
    }
}

pub open spec fn path_model(p: Path) -> PathModel
    decreases p, 2int,
{
    PathModel { segments: segs_model(p.segments@) }
}

pub open spec fn path_opt_model(p: Option<Path>) -> Option<PathModel>
    decreases p, 3int,
{
    match p {
        Some(q) => Some(path_model(q)),
        None => None,
    }
}

pub open spec fn paths_model(v: Seq<Path>) -> Seq<PathModel>
    decreases v, 1int,
{
    if v.len() == 0 {
        Seq::empty()
    } else {
        seq![path_model(v[0])] + paths_model(v.drop_first())
    }
}

pub open spec fn arg_model(a: PathArg) -> ArgModel
    decreases a, 3int,
{
    ArgModel { name: path_opt_model(a.name), value: path_model(a.value) }
}

pub open spec fn args_model(v: Seq<PathArg>) -> Seq<ArgModel>
    decreases v, 1int,
{
    if v.len() == 0 {
        Seq::empty()
    } else {
        seq![arg_model(v[0])] + args_model(v.drop_first())
    }
}

pub open spec fn seg_model(s: PathSegment) -> SegModel
    decreases s, 3int,
{
    match s {
        PathSegment::Ident { name, version, braces, turbofish, tys } => SegModel::Ident {
            name: name@,
            version: str_opt_model(version),
            braces: braces_opt_model(braces),
            turbofish,
            tys: args_model(tys@),
        },
        PathSegment::ImplFor { trait_for, for_ty } => SegModel::ImplFor {
            trait_for: path_model(trait_for),
            for_ty: path_model(for_ty),
        },
        PathSegment::Ty { ty } => SegModel::Ty { ty: path_model(ty) },
        PathSegment::As { ty, as_trait } => SegModel::As { ty: path_model(ty), as_trait: path_model(as_trait) },
        PathSegment::Pointy { raw, mutable, ty } => SegModel::Pointy { raw, mutable, ty: path_model(ty) },
        PathSegment::Tuple { tys } => SegModel::Tuple { tys: paths_model(tys@) },
        PathSegment::FnPtr { tys, output } => SegModel::FnPtr {
            tys: paths_model(tys@),
            output: path_opt_model(output),
        },
        PathSegment::Array { ty, length, length_ty } => SegModel::Array {
            ty: path_model(ty),
            length: str_opt_model(length),
            length_ty: path_opt_model(length_ty),
        },
        PathSegment::Dyn { tys } => SegModel::Dyn { tys: paths_model(tys@) },
    }
}

pub open spec fn segs_model(v: Seq<PathSegment>) -> Seq<SegModel>
    decreases v, 1int,
{
    if v.len() == 0 {
        Seq::empty()
    } else {
        seq![seg_model(v[0])] + segs_model(v.drop_first())
    }
}

/// The model of a run of segments is taken element by element.
pub proof fn lemma_segs_model(v: Seq<PathSegment>)
    ensures
        segs_model(v).len() == v.len(),
        forall|i: int| 0 <= i < v.len() ==> #[trigger] segs_model(v)[i] == seg_model(v[i]),
    decreases v.len(),
{
    if v.len() > 0 {
        lemma_segs_model(v.drop_first());
        assert forall|i: int| 0 <= i < v.len() implies #[trigger] segs_model(v)[i] == seg_model(v[i]) by {
            if i > 0 {
                assert(v.drop_first()[i - 1] == v[i]);
            }
        }
    }
}

/// The model of a run of paths is taken element by element.
pub proof fn lemma_paths_model(v: Seq<Path>)
    ensures
        paths_model(v).len() == v.len(),
        forall|i: int| 0 <= i < v.len() ==> #[trigger] paths_model(v)[i] == path_model(v[i]),
    decreases v.len(),
{
    if v.len() > 0 {
        lemma_paths_model(v.drop_first());
        assert forall|i: int| 0 <= i < v.len() implies #[trigger] paths_model(v)[i] == path_model(v[i]) by {
            if i > 0 {
                assert(v.drop_first()[i - 1] == v[i]);
            }
        }
    }
}

/// The model of a run of arguments is taken element by element.
pub proof fn lemma_args_model(v: Seq<PathArg>)
    ensures
        args_model(v).len() == v.len(),
        forall|i: int| 0 <= i < v.len() ==> #[trigger] args_model(v)[i] == arg_model(v[i]),
    decreases v.len(),
{
    if v.len() > 0 {
        lemma_args_model(v.drop_first());
        assert forall|i: int| 0 <= i < v.len() implies #[trigger] args_model(v)[i] == arg_model(v[i]) by {
            if i > 0 {
                assert(v.drop_first()[i - 1] == v[i]);
            }
        }
    }
}

} // verus!
