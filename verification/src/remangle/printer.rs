use vstd::prelude::*;
use crate::text::append_str;
use crate::remangle::path::{
    ArgModel,
    BracesModel,
    Path,
    PathArg,
    PathBraces,
    PathModel,
    PathSegment,
    SegModel,
    arg_model,
    args_model,
    braces_model,
    path_model,
    path_opt_model,
    paths_model,
    seg_model,
    segs_model,
    str_opt_model,
    braces_opt_model,
    lemma_segs_model,
    lemma_paths_model,
    lemma_args_model,
};

verus! {

/// Versions in brackets and trailing hashes are left out from this level on.
pub const QUIET_REMOVE_VERSION: usize = 1;

/// Closures and shims are written with one symbol from this level on.
pub const QUIET_SHORTEN_ANON: usize = 2;

/// Leading module segments are left out from this level on.
pub const QUIET_REMOVE_MODULE: usize = 3;

/// The trait of a qualified type is left out from this level on.
pub const QUIET_REMOVE_AS_TRAIT: usize = 4;

/// Generic arguments are left out from this level on.
pub const QUIET_REMOVE_PARAMETERS: usize = 5;

/// The quietest level.
pub const MAX_QUIET: usize = 5;

/// Whether `c` is a lower-case hexadecimal digit.
pub open spec fn is_lower_hex(c: char) -> bool {
    ('0' <= c <= '9') || ('a' <= c <= 'f')
}

/// Whether a segment name is a symbol hash: `h` then lower-case hex digits.
pub open spec fn is_hash_name(n: Seq<char>) -> bool {
    n.len() >= 1 && n[0] == 'h' && forall|k: int| 1 <= k < n.len() ==> is_lower_hex(#[trigger] n[k])
}

/// Whether a segment is a trailing symbol hash.
pub open spec fn is_hash_segment(s: SegModel) -> bool {
    s matches SegModel::Ident { name, version, turbofish, tys, .. } && is_hash_name(name) && version is None
        && !turbofish && tys.len() == 0
}

/// Scanning from `k` for the segment where a quiet print starts: the first
/// segment that is not a plain lower-case identifier, or else the last
/// identifier; segments made only of braces are passed over.
pub open spec fn scan_start(segs: Seq<SegModel>, k: int, found: Option<int>) -> Option<int>
    decreases segs.len() - k,
{
    if k < 0 || k >= segs.len() {
        found
    } else {
        match segs[k] {
            SegModel::Ident { name, .. } => if name.len() == 0 {
                scan_start(segs, k + 1, found)
            } else if 'A' <= name[0] <= 'Z' {
                Some(k)
            } else {
                scan_start(segs, k + 1, Some(k))
            },
            _ => Some(k),
        }
    }
}

/// The first segment that a print at level `q` shows.
pub open spec fn start_of(q: int, segs: Seq<SegModel>) -> int {
    if q >= QUIET_REMOVE_MODULE {
        match scan_start(segs, 0, None) {
            Some(k) => k,
            None => 0,
        }
    } else {
        0
    }
}

/// One past the last segment that a print at level `q` shows.
pub open spec fn end_of(q: int, segs: Seq<SegModel>) -> int {
    if q >= QUIET_REMOVE_VERSION && segs.len() > 0 && is_hash_segment(segs.last()) {
        segs.len() - 1
    } else {
        segs.len() as int
    }
}

/// A path as printed at level `q`.
pub open spec fn print_path(q: int, p: PathModel) -> Seq<char>
    decreases p, 0int,
{
    let start = start_of(q, p.segments);
    let end = end_of(q, p.segments);
    (if start > 0 { "…"@ } else { Seq::empty() }) + print_segs(q, p.segments, start, end) + (if end
        < p.segments.len() {
        "…"@
    } else {
        Seq::empty()
    })
}

/// Segments `from` up to `to` joined by `::`.
pub open spec fn print_segs(q: int, segs: Seq<SegModel>, from: int, to: int) -> Seq<char>
    decreases segs, to - from,
{
    if from < 0 || to > segs.len() || to <= from {
        Seq::empty()
    } else if to == from + 1 {
        print_seg(q, segs[from])
    } else {
        print_segs(q, segs, from, to - 1) + "::"@ + print_seg(q, segs[to - 1])
    }
}

/// Paths `from` up to `to` joined by `, `.
pub open spec fn print_list(q: int, ps: Seq<PathModel>, from: int, to: int) -> Seq<char>
    decreases ps, to - from,
{
    if from < 0 || to > ps.len() || to <= from {
        Seq::empty()
    } else if to == from + 1 {
        print_path(q, ps[from])
    } else {
        print_list(q, ps, from, to - 1) + ", "@ + print_path(q, ps[to - 1])
    }
}

/// Generic arguments `from` up to `to` joined by `, `.
pub open spec fn print_args(q: int, args: Seq<ArgModel>, from: int, to: int) -> Seq<char>
    decreases args, to - from,
{
    if from < 0 || to > args.len() || to <= from {
        Seq::empty()
    } else if to == from + 1 {
        print_arg(q, args[from])
    } else {
        print_args(q, args, from, to - 1) + ", "@ + print_arg(q, args[to - 1])
    }
}

/// A generic argument, with its name if it binds one.
pub open spec fn print_arg(q: int, a: ArgModel) -> Seq<char>
    decreases a, 0int,
{
    match a.name {
        Some(n) => print_path(q, n) + " = "@ + print_path(q, a.value),
        None => print_path(q, a.value),
    }
}

/// Braces as printed at level `q`.
pub open spec fn print_braces(q: int, b: BracesModel) -> Seq<char> {
    if q < QUIET_SHORTEN_ANON {
        match b {
            BracesModel::UnknownVTable => "{{vtable.shim}}"@,
            BracesModel::UnknownClosure => "{{closure}}"@,
            BracesModel::VTable(n) => "{shim:vtable#"@ + n + "}"@,
            BracesModel::Closure(n) => "{closure#"@ + n + "}"@,
        }
    } else {
        match b {
            BracesModel::UnknownVTable => "𝓿"@,
            BracesModel::UnknownClosure => "λ"@,
            BracesModel::VTable(n) => "𝓿"@ + n,
            BracesModel::Closure(n) => "λ"@ + n,
        }
    }
}

/// The version of an identifier, in brackets, shown only at level 0.
pub open spec fn print_version(q: int, version: Option<Seq<char>>) -> Seq<char> {
    match version {
        Some(v) => if q < QUIET_REMOVE_VERSION {
            "["@ + v + "]"@
        } else {
            Seq::empty()
        },
        None => Seq::empty(),
    }
}

/// The braces of an identifier, if it has some.
pub open spec fn print_braces_opt(q: int, braces: Option<BracesModel>) -> Seq<char> {
    match braces {
        Some(b) => print_braces(q, b),
        None => Seq::empty(),
    }
}

/// The generic arguments of an identifier, in angle brackets, replaced by
/// `…` from `QUIET_REMOVE_PARAMETERS` on.
pub open spec fn print_generics(q: int, turbofish: bool, tys: Seq<ArgModel>) -> Seq<char>
    decreases tys, tys.len() + 1,
{
    if tys.len() == 0 {
        Seq::empty()
    } else {
        (if turbofish { "::"@ } else { Seq::empty() }) + "<"@ + (if q < QUIET_REMOVE_PARAMETERS {
            print_args(q, tys, 0, tys.len() as int)
        } else {
            "…"@
        }) + ">"@
    }
}

/// A segment as printed at level `q`.
pub open spec fn print_seg(q: int, s: SegModel) -> Seq<char>
    decreases s, 0int,
{
    match s {
        SegModel::Ident { name, version, braces, turbofish, tys } => name + print_version(q, version)
            + print_braces_opt(q, braces) + print_generics(q, turbofish, tys),
        SegModel::ImplFor { trait_for, for_ty } => "<impl "@ + print_path(q, trait_for) + " for "@
            + print_path(q, for_ty) + ">"@,
        SegModel::Ty { ty } => "<"@ + print_path(q, ty) + ">"@,
        SegModel::As { ty, as_trait } => "<"@ + print_path(q, ty) + (if q < QUIET_REMOVE_AS_TRAIT {
            " as "@ + print_path(q, as_trait)
        } else {
            Seq::empty()
        }) + ">"@,
        SegModel::Pointy { raw, mutable, ty } => (if raw {
            if mutable {
                "*mut "@
            } else {
                "*const "@
            }
        } else {
            if mutable {
                "&mut "@
            } else {
                "&"@
            }
        }) + print_path(q, ty),
        SegModel::Tuple { tys } => "("@ + print_list(q, tys, 0, tys.len() as int) + (if tys.len() == 1 {
            ","@
        } else {
            Seq::empty()
        }) + ")"@,
        SegModel::FnPtr { tys, output } => "fn("@ + print_list(q, tys, 0, tys.len() as int) + ")"@
            + match output {
            Some(o) => " -> "@ + print_path(q, o),
            None => Seq::empty(),
        },
        SegModel::Array { ty, length, length_ty } => "["@ + print_path(q, ty) + match length {
            Some(n) => "; "@ + n + match length_ty {
                Some(lt) => ": "@ + print_path(q, lt),
                None => Seq::empty(),
            },
            None => Seq::empty(),
        } + "]"@,
        SegModel::Dyn { tys } => "dyn "@ + print_dyn(q, tys, 0, tys.len() as int),
    }
}

/// Bounds `from` up to `to` joined by ` + `.
pub open spec fn print_dyn(q: int, ps: Seq<PathModel>, from: int, to: int) -> Seq<char>
    decreases ps, to - from,
{
    if from < 0 || to > ps.len() || to <= from {
        Seq::empty()
    } else if to == from + 1 {
        print_path(q, ps[from])
    } else {
        print_dyn(q, ps, from, to - 1) + " + "@ + print_path(q, ps[to - 1])
    }
}

/// Writes paths at a level of quietness.
pub struct Printer {
    quiet: usize,
    output: String,
}

/// Whether `c` is a lower-case hexadecimal digit.
fn lower_hex(c: char) -> (r: bool)
    ensures
        r == is_lower_hex(c),
{
    ('0' <= c && c <= '9') || ('a' <= c && c <= 'f')
}

/// Whether `name` is a symbol hash.
fn hash_name(name: &str) -> (r: bool)
    ensures
        r == is_hash_name(name@),
{
    let n = name.unicode_len();
    if n == 0 || name.get_char(0) != 'h' {
        return false;
    }
    let mut k: usize = 1;
    while k < n
        invariant
            n == name@.len(),
            1 <= k <= n,
            name@[0] == 'h',
            forall|j: int| 1 <= j < k ==> is_lower_hex(#[trigger] name@[j]),
        decreases n - k,
    {
        if !lower_hex(name.get_char(k)) {
            return false;
        }
        k = k + 1;
    }
    true
}

impl Printer {
    pub closed spec fn quiet_level(&self) -> int {
        self.quiet as int
    }

    /// What has been written so far.
    pub closed spec fn written(&self) -> Seq<char> {
        self.output@
    }

    /// A printer at level `quiet` that writes after `output`.
    pub fn new(quiet: usize, output: String) -> (r: Self)
        ensures
            r.quiet_level() == quiet,
            r.written() == output@,
    {
        Printer { quiet, output }
    }

    /// What was written.
    pub fn into_output(self) -> (r: String)
        ensures
            r@ == self.written(),
    {
        self.output
    }

    fn write(&mut self, s: &str)
        ensures
            final(self).quiet_level() == old(self).quiet_level(),
            final(self).written() == old(self).written() + s@,
    {
        append_str(&mut self.output, s)
    }

    /// The first segment to show.
    fn start_of(&self, path: &Path) -> (r: usize)
        ensures
            r == start_of(self.quiet_level(), segs_model(path.segments@)),
    {
        let ghost segs = segs_model(path.segments@);
        proof {
            lemma_segs_model(path.segments@);
        }
        if self.quiet < QUIET_REMOVE_MODULE {
            return 0;
        }
        let n = path.segments.len();
        let mut k: usize = 0;
        let mut found: Option<usize> = None;
        while k < n
            invariant
                n == segs.len(),
                n == path.segments@.len(),
                segs == segs_model(path.segments@),
                forall|i: int| 0 <= i < n ==> #[trigger] segs[i] == seg_model(path.segments@[i]),
                k <= n,
                self.quiet_level() >= QUIET_REMOVE_MODULE,
                found matches Some(f) ==> f < n,
                scan_start(segs, 0, None) == scan_start(
                    segs,
                    k as int,
                    match found {
                        Some(f) => Some(f as int),
                        None => None,
                    },
                ),
            decreases n - k,
        {
            match &path.segments[k] {
                PathSegment::Ident { name, .. } => {
                    assert(segs[k as int] == seg_model(path.segments@[k as int]));
                    let len = name.unicode_len();
                    if len == 0 {
                    } else {
                        let c = name.get_char(0);
                        if 'A' <= c && c <= 'Z' {
                            assert(scan_start(segs, k as int, match found {
                                Some(f) => Some(f as int),
                                None => None,
                            }) == Some(k as int));
                            assert(start_of(self.quiet_level(), segs) == k);
                            return k;
                        }
                        found = Some(k);
                    }
                },
                _ => {
                    assert(segs[k as int] == seg_model(path.segments@[k as int]));
                    return k;
                },
            }
            k = k + 1;
        }
        match found {
            Some(f) => f,
            None => 0,
        }
    }

    /// One past the last segment to show.
    fn end_of(&self, path: &Path) -> (r: usize)
        ensures
            r == end_of(self.quiet_level(), segs_model(path.segments@)),
    {
        proof {
            lemma_segs_model(path.segments@);
        }
        let n = path.segments.len();
        if self.quiet >= QUIET_REMOVE_VERSION && n > 0 {
            assert(segs_model(path.segments@).last() == seg_model(path.segments@[n - 1]));
            match &path.segments[n - 1] {
                PathSegment::Ident { name, version, turbofish, tys, .. } => {
                    if version.is_none() && !*turbofish && tys.len() == 0 && hash_name(name) {
                        return n - 1;
                    }
                },
                _ => {},
            }
        }
        n
    }

    /// Writes `path`: the segments to show joined by `::`, with `…` where
    /// segments were left out at either end.
    pub fn print(&mut self, path: &Path)
        ensures
            final(self).quiet_level() == old(self).quiet_level(),
            final(self).written() == old(self).written() + print_path(
                old(self).quiet_level(),
                path_model(*path),
            ),
        decreases path, 0int,
    {
        let ghost q = self.quiet_level();
        let ghost segs = segs_model(path.segments@);
        proof {
            lemma_segs_model(path.segments@);
        }
        let start = self.start_of(path);
        let end = self.end_of(path);
        if start > 0 {
            self.write("…");
        }
        let ghost before = self.written();
        let mut i: usize = start;
        while i < end
            invariant
                segs == segs_model(path.segments@),
                segs.len() == path.segments@.len(),
                forall|j: int| 0 <= j < segs.len() ==> #[trigger] segs[j] == seg_model(path.segments@[j]),
                end == end_of(q, segs),
                end <= segs.len(),
                start <= i,
                i <= end || start > end,
                q == self.quiet_level(),
                self.written() == before + print_segs(q, segs, start as int, i as int),
            decreases end - i,
        {
            if i > start {
                self.write("::");
            }
            self.print_segment(&path.segments[i]);
            assert(print_segs(q, segs, start as int, i + 1) == (if i == start {
                print_seg(q, segs[i as int])
            } else {
                print_segs(q, segs, start as int, i as int) + "::"@ + print_seg(q, segs[i as int])
            }));
            i = i + 1;
        }
        if end < path.segments.len() {
            self.write("…");
        }
    }

    /// Writes the paths of `ps` joined by `, `.
    fn print_list(&mut self, ps: &Vec<Path>)
        ensures
            final(self).quiet_level() == old(self).quiet_level(),
            final(self).written() == old(self).written() + print_list(
                old(self).quiet_level(),
                paths_model(ps@),
                0,
                ps@.len() as int,
            ),
        decreases ps, 0int,
    {
        let ghost q = self.quiet_level();
        let ghost pm = paths_model(ps@);
        proof {
            lemma_paths_model(ps@);
        }
        let ghost before = self.written();
        let mut i: usize = 0;
        while i < ps.len()
            invariant
                pm == paths_model(ps@),
                pm.len() == ps@.len(),
                forall|j: int| 0 <= j < pm.len() ==> #[trigger] pm[j] == path_model(ps@[j]),
                i <= ps@.len(),
                q == self.quiet_level(),
                self.written() == before + print_list(q, pm, 0, i as int),
            decreases ps@.len() - i,
        {
            if i > 0 {
                self.write(", ");
            }
            self.print(&ps[i]);
            i = i + 1;
        }
    }

    /// Writes the bounds of `ps` joined by ` + `.
    fn print_dyn(&mut self, ps: &Vec<Path>)
        ensures
            final(self).quiet_level() == old(self).quiet_level(),
            final(self).written() == old(self).written() + print_dyn(
                old(self).quiet_level(),
                paths_model(ps@),
                0,
                ps@.len() as int,
            ),
        decreases ps, 0int,
    {
        let ghost q = self.quiet_level();
        let ghost pm = paths_model(ps@);
        proof {
            lemma_paths_model(ps@);
        }
        let ghost before = self.written();
        let mut i: usize = 0;
        while i < ps.len()
            invariant
                pm == paths_model(ps@),
                pm.len() == ps@.len(),
                forall|j: int| 0 <= j < pm.len() ==> #[trigger] pm[j] == path_model(ps@[j]),
                i <= ps@.len(),
                q == self.quiet_level(),
                self.written() == before + print_dyn(q, pm, 0, i as int),
            decreases ps@.len() - i,
        {
            if i > 0 {
                self.write(" + ");
            }
            self.print(&ps[i]);
            i = i + 1;
        }
    }

    /// Writes a generic argument.
    fn print_arg(&mut self, a: &PathArg)
        ensures
            final(self).quiet_level() == old(self).quiet_level(),
            final(self).written() == old(self).written() + print_arg(old(self).quiet_level(), arg_model(*a)),
        decreases a, 0int,
    {
        match &a.name {
            Some(n) => {
                self.print(n);
                self.write(" = ");
                self.print(&a.value);
            },
            None => self.print(&a.value),
        }
    }

    /// Writes the generic arguments of `args` joined by `, `.
    fn print_args(&mut self, args: &Vec<PathArg>)
        ensures
            final(self).quiet_level() == old(self).quiet_level(),
            final(self).written() == old(self).written() + print_args(
                old(self).quiet_level(),
                args_model(args@),
                0,
                args@.len() as int,
            ),
        decreases args, 0int,
    {
        let ghost q = self.quiet_level();
        let ghost am = args_model(args@);
        proof {
            lemma_args_model(args@);
        }
        let ghost before = self.written();
        let mut i: usize = 0;
        while i < args.len()
            invariant
                am == args_model(args@),
                am.len() == args@.len(),
                forall|j: int| 0 <= j < am.len() ==> #[trigger] am[j] == arg_model(args@[j]),
                i <= args@.len(),
                q == self.quiet_level(),
                self.written() == before + print_args(q, am, 0, i as int),
            decreases args@.len() - i,
        {
            if i > 0 {
                self.write(", ");
            }
            self.print_arg(&args[i]);
            i = i + 1;
        }
    }

    /// Writes braces.
    fn print_braces(&mut self, b: &PathBraces)
        ensures
            final(self).quiet_level() == old(self).quiet_level(),
            final(self).written() == old(self).written() + print_braces(old(self).quiet_level(), braces_model(*b)),
    {
        if self.quiet < QUIET_SHORTEN_ANON {
            match b {
                PathBraces::UnknownVTable => self.write("{{vtable.shim}}"),
                PathBraces::UnknownClosure => self.write("{{closure}}"),
                PathBraces::VTable { vtable } => {
                    self.write("{shim:vtable#");
                    self.write(vtable);
                    self.write("}");
                },
                PathBraces::Closure { closure } => {
                    self.write("{closure#");
                    self.write(closure);
                    self.write("}");
                },
            }
        } else {
            match b {
                PathBraces::UnknownVTable => self.write("𝓿"),
                PathBraces::UnknownClosure => self.write("λ"),
                PathBraces::VTable { vtable } => {
                    self.write("𝓿");
                    self.write(vtable);
                },
                PathBraces::Closure { closure } => {
                    self.write("λ");
                    self.write(closure);
                },
            }
        }
    }

    fn print_version(&mut self, version: &Option<&str>)
        ensures
            final(self).quiet_level() == old(self).quiet_level(),
            final(self).written() == old(self).written() + print_version(old(self).quiet_level(), str_opt_model(*version)),
    {
        if self.quiet < QUIET_REMOVE_VERSION {
            if let Some(version) = version {
                self.write("[");
                self.write(version);
                self.write("]");
            }
        }
    }

    fn print_braces_opt(&mut self, braces: &Option<PathBraces>)
        ensures
            final(self).quiet_level() == old(self).quiet_level(),
            final(self).written() == old(self).written() + print_braces_opt(old(self).quiet_level(), braces_opt_model(*braces)),
    {
        if let Some(braces) = braces {
            self.print_braces(braces);
        }
    }

    fn print_generics(&mut self, turbofish: bool, tys: &Vec<PathArg>)
        ensures
            final(self).quiet_level() == old(self).quiet_level(),
            final(self).written() == old(self).written() + print_generics(old(self).quiet_level(), turbofish, args_model(tys@)),
        decreases tys, 1int,
    {
        proof {
            lemma_args_model(tys@);
        }
        if tys.len() > 0 {
            if turbofish {
                self.write("::");
            }
            self.write("<");
            if self.quiet < QUIET_REMOVE_PARAMETERS {
                self.print_args(tys);
            } else {
                self.write("…");
            }
            self.write(">");
        }
    }

    /// Writes an identifier segment.
    fn print_ident(
        &mut self,
        name: &str,
        version: &Option<&str>,
        braces: &Option<PathBraces>,
        turbofish: bool,
        tys: &Vec<PathArg>,
    )
        ensures
            final(self).quiet_level() == old(self).quiet_level(),
            final(self).written() == old(self).written() + (name@ + print_version(
                old(self).quiet_level(),
                str_opt_model(*version),
            ) + print_braces_opt(old(self).quiet_level(), braces_opt_model(*braces)) + print_generics(
                old(self).quiet_level(),
                turbofish,
                args_model(tys@),
            )),
        decreases tys, 2int,
    {
        let ghost q = self.quiet_level();
        let ghost s0 = self.written();
        self.write(name);
        self.print_version(version);
        self.print_braces_opt(braces);
        self.print_generics(turbofish, tys);
        assert(self.written() =~= s0 + (name@ + print_version(q, str_opt_model(*version))
            + print_braces_opt(q, braces_opt_model(*braces)) + print_generics(q, turbofish, args_model(tys@))));
    }

    /// Writes one segment.
    #[verifier::spinoff_prover]
    #[verifier::rlimit(40)]
    pub fn print_segment(&mut self, segment: &PathSegment)
        ensures
            final(self).quiet_level() == old(self).quiet_level(),
            final(self).written() == old(self).written() + print_seg(old(self).quiet_level(), seg_model(*segment)),
        decreases segment, 0int,
    {
        let ghost q = self.quiet_level();
        let ghost s0 = self.written();
        match segment {
            PathSegment::Ident { name, version, braces, turbofish, tys } => {
                self.print_ident(name, version, braces, *turbofish, tys);
                assert(self.written() =~= s0 + print_seg(q, seg_model(*segment)));
            },
            PathSegment::ImplFor { trait_for, for_ty } => {
                self.write("<impl ");
                self.print(trait_for);
                self.write(" for ");
                self.print(for_ty);
                self.write(">");
                assert(self.written() =~= s0 + print_seg(q, seg_model(*segment)));
            },
            PathSegment::Ty { ty } => {
                self.write("<");
                self.print(ty);
                self.write(">");
                assert(self.written() =~= s0 + print_seg(q, seg_model(*segment)));
            },
            PathSegment::As { ty, as_trait } => {
                self.write("<");
                self.print(ty);
                if self.quiet < QUIET_REMOVE_AS_TRAIT {
                    self.write(" as ");
                    self.print(as_trait);
                }
                self.write(">");
                assert(self.written() =~= s0 + print_seg(q, seg_model(*segment)));
            },
            PathSegment::Pointy { raw, mutable, ty } => {
                if *raw {
                    if *mutable {
                        self.write("*mut ");
                    } else {
                        self.write("*const ");
                    }
                } else {
                    if *mutable {
                        self.write("&mut ");
                    } else {
                        self.write("&");
                    }
                }
                self.print(ty);
                assert(self.written() =~= s0 + print_seg(q, seg_model(*segment)));
            },
            PathSegment::Tuple { tys } => {
                proof {
                    lemma_paths_model(tys@);
                }
                self.write("(");
                self.print_list(tys);
                if tys.len() == 1 {
                    self.write(",");
                }
                self.write(")");
                assert(self.written() =~= s0 + print_seg(q, seg_model(*segment)));
            },
            PathSegment::FnPtr { tys, output } => {
                proof {
                    lemma_paths_model(tys@);
                }
                self.write("fn(");
                self.print_list(tys);
                self.write(")");
                if let Some(output) = output {
                    self.write(" -> ");
                    self.print(output);
                }
                assert(self.written() =~= s0 + print_seg(q, seg_model(*segment)));
            },
            PathSegment::Array { ty, length, length_ty } => {
                self.write("[");
                self.print(ty);
                if let Some(length) = length {
                    self.write("; ");
                    self.write(length);
                    if let Some(length_ty) = length_ty {
                        self.write(": ");
                        self.print(length_ty);
                    }
                }
                self.write("]");
                assert(self.written() =~= s0 + print_seg(q, seg_model(*segment)));
            },
            PathSegment::Dyn { tys } => {
                proof {
                    lemma_paths_model(tys@);
                }
                self.write("dyn ");
                self.print_dyn(tys);
                assert(self.written() =~= s0 + print_seg(q, seg_model(*segment)));
            },
        }
    }
}

/// A pointer or reference type is printed with the word of its kind in
/// front of its pointee: `&mut ` for a mutable reference, `&` for a shared
/// one, `*mut ` and `*const ` for raw pointers. The four words differ, so
/// the printed text tells the kind.
pub proof fn pointer_kind_printed(q: int, raw: bool, mutable: bool, ty: PathModel)
    ensures
        ({
            let word: Seq<char> = if raw {
                if mutable {
                    seq!['*', 'm', 'u', 't', ' ']
                } else {
                    seq!['*', 'c', 'o', 'n', 's', 't', ' ']
                }
            } else if mutable {
                seq!['&', 'm', 'u', 't', ' ']
            } else {
                seq!['&']
            };
            print_seg(q, SegModel::Pointy { raw, mutable, ty }) == word + print_path(q, ty)
        }),
        forall|raw2: bool, mutable2: bool|
            (raw2 != raw || mutable2 != mutable) ==> #[trigger] print_seg(
                q,
                SegModel::Pointy { raw: raw2, mutable: mutable2, ty },
            ) != print_seg(q, SegModel::Pointy { raw, mutable, ty }),
{
    reveal_strlit("*mut ");
    reveal_strlit("*const ");
    reveal_strlit("&mut ");
    reveal_strlit("&");
    let p = print_path(q, ty);
    let a = print_seg(q, SegModel::Pointy { raw, mutable, ty });
    assert forall|raw2: bool, mutable2: bool|
        (raw2 != raw || mutable2 != mutable) implies #[trigger] print_seg(
            q,
            SegModel::Pointy { raw: raw2, mutable: mutable2, ty },
        ) != a by {
        let b = print_seg(q, SegModel::Pointy { raw: raw2, mutable: mutable2, ty });
        if raw && mutable {
            assert(a[1] == 'm');
        } else if raw {
            assert(a[1] == 'c');
        } else if mutable {
            assert(a[1] == 'm');
        }
        if raw2 && mutable2 {
            assert(b[1] == 'm');
        } else if raw2 {
            assert(b[1] == 'c');
        } else if mutable2 {
            assert(b[1] == 'm');
        }
        if b == a {
            if raw != raw2 {
                assert(a[0] != b[0]);
            } else if raw {
                assert(a[1] != b[1]);
            } else {
                assert(a.len() != b.len() || a[1] != b[1]);
            }
        }
    }
}

/// Segments are printed in order with `::` between: those `from` up to
/// `to` are those up to `mid` and those from `mid` on, joined by `::`.
pub proof fn segs_join(q: int, v: Seq<SegModel>, from: int, mid: int, to: int)
    requires
        0 <= from < mid < to <= v.len(),
    ensures
        print_segs(q, v, from, to) == print_segs(q, v, from, mid) + "::"@ + print_segs(q, v, mid, to),
    decreases to - mid,
{
    reveal_strlit("::");
    if to > mid + 1 {
        segs_join(q, v, from, mid, to - 1);
        assert(print_segs(q, v, from, to) =~= print_segs(q, v, from, mid) + "::"@ + print_segs(q, v, mid, to));
    }
}
/// Paths in a list are printed in order with `, ` between: those `from`
/// up to `to` are those up to `mid` and those from `mid` on, joined by `, `.
pub proof fn list_join(q: int, v: Seq<PathModel>, from: int, mid: int, to: int)
    requires
        0 <= from < mid < to <= v.len(),
    ensures
        print_list(q, v, from, to) == print_list(q, v, from, mid) + ", "@ + print_list(q, v, mid, to),
    decreases to - mid,
{
    reveal_strlit(", ");
    if to > mid + 1 {
        list_join(q, v, from, mid, to - 1);
        assert(print_list(q, v, from, to) =~= print_list(q, v, from, mid) + ", "@ + print_list(q, v, mid, to));
    }
}
/// Generic arguments are printed in order with `, ` between: those `from`
/// up to `to` are those up to `mid` and those from `mid` on, joined by `, `.
pub proof fn args_join(q: int, v: Seq<ArgModel>, from: int, mid: int, to: int)
    requires
        0 <= from < mid < to <= v.len(),
    ensures
        print_args(q, v, from, to) == print_args(q, v, from, mid) + ", "@ + print_args(q, v, mid, to),
    decreases to - mid,
{
    reveal_strlit(", ");
    if to > mid + 1 {
        args_join(q, v, from, mid, to - 1);
        assert(print_args(q, v, from, to) =~= print_args(q, v, from, mid) + ", "@ + print_args(q, v, mid, to));
    }
}
/// The bounds of a `dyn` type are printed in order with ` + ` between:
/// those `from` up to `to` are those up to `mid` and those from `mid` on,
/// joined by ` + `.
pub proof fn bounds_join(q: int, v: Seq<PathModel>, from: int, mid: int, to: int)
    requires
        0 <= from < mid < to <= v.len(),
    ensures
        print_dyn(q, v, from, to) == print_dyn(q, v, from, mid) + " + "@ + print_dyn(q, v, mid, to),
    decreases to - mid,
{
    reveal_strlit(" + ");
    if to > mid + 1 {
        bounds_join(q, v, from, mid, to - 1);
        assert(print_dyn(q, v, from, to) =~= print_dyn(q, v, from, mid) + " + "@ + print_dyn(q, v, mid, to));
    }
}

} // verus!
