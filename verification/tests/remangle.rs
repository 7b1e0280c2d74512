use asynckit::remangle::path::{Path, PathBraces, PathSegment};
use asynckit::remangle::printer::{Printer, MAX_QUIET};
use asynckit::remangle::remangle;
use asynckit::remangle::shorten;

const EXAMPLES: &[&str] = &[
    "<aa::bb[444] as Foo::ddd>::parse",
    "<tokio[b42d84aa1fe2c576]::loom::std::unsafe_cell::UnsafeCell<core[75ee33869dcd9a7b]::option::Option<core[75ee33869dcd9a7b]::task::wake::Waker>>>::with_mut::<(), <tokio[b42d84aa1fe2c576]::sync::task::atomic_waker::AtomicWaker>::do_register<&core[75ee33869dcd9a7b]::task::wake::Waker>::{closure#1}>",
    "<async_backtrace[ac85353af3ad180c]::TRACE_WAKER_VTABLE::{closure#0} as core[75ee33869dcd9a7b]::ops::function::FnOnce<(*const (),)>>::call_once",
    "<alloc::boxed::Box<F,A> as core::ops::function::FnOnce<Args>>::call_once::h956be82c5a7d95d6",
    "core::ops::function::impls::<impl core::ops::function::FnOnce<A> for &F>::call_once::h95e11665661cf81e",
    "<<std[3f53dec8e99b1f88]::thread::Builder>::spawn_unchecked<<tokio[693d8ff8a2386e6a]::runtime::blocking::pool::Spawner>::spawn_thread::{closure#0}, ()>::{closure#0} as core[75ee33869dcd9a7b]::ops::function::FnOnce<()>>::call_once::{shim:vtable#0}",
    "<tokio[693d8ff8a2386e6a]::runtime::basic_scheduler::Inner<tokio[693d8ff8a2386e6a]::runtime::driver::Driver>>::block_on::<core[75ee33869dcd9a7b]::pin::Pin<&mut core[75ee33869dcd9a7b]::future::from_generator::GenFuture<async_backtrace[2a950c76ff9e6286]::server::run_debug_server::{closure#1}::{closure#0}>>>::{closure#0}",
    "<fn() as core[75ee33869dcd9a7b]::ops::function::FnOnce<()>>::call_once",
    "example[8e385caf73139a18]::for_generic::<[u8; 10: usize]>",
    "example[8e385caf73139a18]::for_generic::<fn(usize) -> usize>",
    "core::ops::function::FnOnce::call_once{{vtable.shim}}::hf54ddc002259dae6",
    "tokio::sync::task::atomic_waker::AtomicWaker::do_register::{{closure}}::h9d574f6952b7301f",
];

#[test]
fn test_parser() {
    for example in EXAMPLES {
        let path = Path::parse(example);
        assert!(path.is_ok(), "{}", example);
        println!("{}", path.unwrap().debug_string());
    }
}

#[test]
fn debug_strings_list_the_parts() {
    let path = Path::parse("a::b<c>").unwrap();
    assert_eq!(path.debug_string(), r#"[["a"], "::", ["b", "<", [["c"]], ">"]]"#);
    assert_eq!(path.segments[1].debug_string(), r#"["b", "<", [["c"]], ">"]"#);
    let path = Path::parse("x[12ab]::f::<(u8,), [T; 3: usize]>").unwrap();
    assert_eq!(
        path.debug_string(),
        r#"[["x", "[", "12ab", "]"], "::", ["f", "::", "<", [["(", [["u8"]], ",", ")"]], ",", [["[", [["T"]], ";", Some("3"), ":", Some([["usize"]]), "]"]], ">"]]"#
    );
    let path = Path::parse("<&mut T as Tr>::g").unwrap();
    assert_eq!(path.debug_string(), r#"[["<", [["&mut ", [["T"]]]], " as ", [["Tr"]], ">"], "::", ["g"]]"#);
    assert_eq!(PathBraces::Closure { closure: "3" }.debug_string(), r#"["{", "closure#", "3", "}"]"#);
    assert_eq!(PathBraces::UnknownVTable.debug_string(), r#"["{", "{", "vtable.shim", "}", "}"]"#);
    assert_eq!(
        PathSegment::Tuple { tys: vec![] }.debug_string(),
        r#"["(", ")"]"#
    );
    assert_eq!(PathSegment::Ident {
        name: "q\"t",
        version: None,
        braces: None,
        turbofish: false,
        tys: vec![],
    }.debug_string(), r#"["q\"t"]"#);
}

#[test]
fn test_printer() {
    for example in EXAMPLES {
        println!();
        println!("{}", example);
        let path = Path::parse(example).unwrap();
        for quiet in 0..=MAX_QUIET {
            let mut printer = Printer::new(quiet, String::new());
            printer.print(&path);
            println!("{}", printer.into_output());
        }
    }
}

#[test]
fn remangle_keeps_a_short_path() {
    assert_eq!(remangle("a::b::c<d>"), "a::b::c<d>");
}

#[test]
fn remangle_drops_the_hash() {
    assert_eq!(remangle("foo::bar::h0123abcd"), "foo::bar…");
}

#[test]
fn remangle_drops_versions() {
    assert_eq!(remangle("<aa::bb[444] as Foo::ddd>::parse"), "<aa::bb as Foo::ddd>::parse");
}

#[test]
fn remangle_marks_what_it_cannot_read() {
    assert_eq!(remangle("a<"), "[unparsed]::a<");
}

#[test]
fn quiet_levels_until_it_fits() {
    let path = Path::parse("alpha::beta::Gamma<delta>").unwrap();
    assert_eq!(path.path_to_string(0, 100), "alpha::beta::Gamma<delta>");
    assert_eq!(path.path_to_string(0, 10), "…Gamma<…>");
    assert_eq!(path.path_to_string(0, 3), "…Ga");
}

#[test]
fn printer_levels_for_closures_and_traits() {
    let path = Path::parse("<a::B as c::D>::f::{closure#2}").unwrap();
    let mut loud = Printer::new(0, String::new());
    loud.print(&path);
    assert_eq!(loud.into_output(), "<a::B as c::D>::f::{closure#2}");
    let mut quiet = Printer::new(4, String::new());
    quiet.print(&path);
    assert_eq!(quiet.into_output(), "<…B>::f::λ2");
}

#[test]
fn printer_tuples_arrays_and_pointers() {
    let path = Path::parse("f<(u8,), [u8; 4: usize], *const T, fn(u8) -> u16>").unwrap();
    let mut printer = Printer::new(0, String::new());
    printer.print(&path);
    assert_eq!(printer.into_output(), "f<(u8,), [u8; 4: usize], *const T, fn(u8) -> u16>");
}

#[test]
fn test_parse() {
    for example in ["<aa::bb[444] as Foo::ddd>::parse",
                    "<tokio[b42d84aa1fe2c576]::loom::std::unsafe_cell::UnsafeCell<core[75ee33869dcd9a7b]::option::Option<core[75ee33869dcd9a7b]::task::wake::Waker>>>::with_mut::<(), <tokio[b42d84aa1fe2c576]::sync::task::atomic_waker::AtomicWaker>::do_register<&core[75ee33869dcd9a7b]::task::wake::Waker>::{closure#1}>",
                    "<async_backtrace[ac85353af3ad180c]::TRACE_WAKER_VTABLE::{closure#0} as core[75ee33869dcd9a7b]::ops::function::FnOnce<(*const (),)>>::call_once",
                    "<alloc::boxed::Box<F,A> as core::ops::function::FnOnce<Args>>::call_once::h956be82c5a7d95d6"] {
        assert!(shorten::Path::parse(example).is_ok(), "{}", example);
        println!("{}", shorten::remangle(example));
    }
}

#[test]
fn test_compression() {
    let first = shorten::remangle("<tokio::loom::std::unsafe_cell::UnsafeCell<core::option::Option<core::task::wake::Waker>>>::with_mut<(),<tokio::sync::task::atomic_waker::AtomicWaker>::do_register<&core::task::wake::Waker>::{closure#1}>");
    println!("{}", first);
    assert!(first.chars().count() <= 100);
    let second = shorten::remangle("<std::thread::local::LocalKey<core::cell::Cell<tokio::coop::Budget>>>::try_with<tokio::coop::with_budget<core::task::poll::Poll<()>,<tokio::park::thread::CachedParkThread>::block_on<core::future::from_generator::GenFuture<async_backtrace::test::test_basic::{closure#0}>>::{closure#0}>::{closure#0},core::task::poll::Poll<()>>");
    println!("{}", second);
    assert!(second.chars().count() <= 100);
}

#[test]
fn shorten_takes_off_versions() {
    assert_eq!(shorten::remangle("<aa::bb[444] as Foo::ddd>::parse"), "<aa::bb::ddd>::parse");
}

#[test]
fn shorten_takes_off_a_hash() {
    assert_eq!(shorten::remangle("foo::bar::baz::h1234"), "foo::bar::baz");
}

#[test]
fn shorten_names_closures() {
    assert_eq!(shorten::remangle("a[1]::b::{closure#0}"), "a::b::λ0");
}

#[test]
fn shorten_names_generators() {
    assert_eq!(
        shorten::remangle("<core::future::from_generator::GenFuture<x::y> as core::future::future::Future>::poll"),
        "x::y::poll"
    );
}

#[test]
fn shorten_marks_what_it_cannot_read() {
    assert_eq!(shorten::remangle("a:b"), "[parsed failed]::a:b");
}
