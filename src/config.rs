use vstd::prelude::*;
use vstd::string::*;

verus! {

/// The settings handed to the declaration-to-binding generator.
pub struct GeneratorConfig {
    /// The umbrella header to parse.
    pub header: String,
    /// Arguments passed to the C front end, in order.
    pub clang_args: Vec<String>,
    /// Refer to primitive types through `core` rather than `std`.
    pub use_core: bool,
    /// Derive `Debug` on generated types.
    pub derive_debug: bool,
    /// The module path put before raw C types.
    pub ctypes_prefix: String,
    /// Functions left out of the bindings.
    pub blocked_functions: Vec<String>,
    /// Type patterns generated as opaque blobs.
    pub opaque_types: Vec<String>,
    /// Copy C comments into the bindings.
    pub generate_comments: bool,
}

/// The views of a sequence of strings.
pub open spec fn string_views(v: Seq<String>) -> Seq<Seq<char>> {
    v.map_values(|s: String| s@)
}

/// The front-end arguments: a stand-in definition for the 128-bit integer
/// alias that the parser cannot handle, the configuration header in use, and
/// the search path for the library's public headers.
pub open spec fn front_end_args(include_dir: Seq<char>, config_h: Seq<char>) -> Seq<Seq<char>> {
    seq![
        "-Dmbedtls_t_udbl=mbedtls_t_udbl;"@,
        "-DMBEDTLS_CONFIG_FILE=<"@ + config_h + ">"@,
        "-I"@ + include_dir,
    ]
}

/// The libc functions whose signatures the generator cannot represent or that
/// some targets lack.
pub open spec fn blocked_names() -> Seq<Seq<char>> {
    seq!["strtold"@, "qecvt_r"@, "qecvt"@, "qfcvt_r"@, "qgcvt"@, "qfcvt"@]
}

/// Raw C types are taken from the crate's own raw-type module.
pub open spec fn raw_types_prefix() -> Seq<char> {
    "crate::types::raw_types"@
}

/// The C++ standard namespace is kept opaque.
pub open spec fn opaque_names() -> Seq<Seq<char>> {
    seq!["std::*"@]
}

/// The text put before the generated bindings: lints that the generated
/// names and imports would trip are allowed.
pub open spec fn bindings_preamble() -> Seq<char> {
    "#![allow(nonstandard_style)]\n#![allow(unused_imports)]\n"@
}

/// The text put after the generated bindings: the platform type aliases
/// (`FILE`, `time_t`, ...) that the minimal core vocabulary leaves out.
pub open spec fn bindings_trailer() -> Seq<char> {
    "use crate::types::*;\n"@
}

/// A vector holding the strings of `names`, in order.
fn strings(names: &[&str]) -> (r: Vec<String>)
    ensures
        string_views(r@) == names@.map_values(|s: &str| s@),
{
    let mut r: Vec<String> = Vec::new();
    let mut i: usize = 0;
    while i < names.len()
        invariant
            i <= names@.len(),
            r@.len() == i,
            forall|k: int| 0 <= k < i ==> (#[trigger] r@[k])@ == names@[k]@,
        decreases names@.len() - i,
    {
        r.push(names[i].to_owned());
        i = i + 1;
    }
    assert(string_views(r@) =~= names@.map_values(|s: &str| s@));
    r
}

/// The generator settings for the umbrella header at `header`, the library's
/// public header directory `include_dir` and the configuration header
/// `config_h`.
pub fn generator_config(header: &str, include_dir: &str, config_h: &str) -> (r: GeneratorConfig)
    ensures
        r.header@ == header@,
        string_views(r.clang_args@) == front_end_args(include_dir@, config_h@),
        r.use_core,
        !r.derive_debug,
        r.ctypes_prefix@ == raw_types_prefix(),
        string_views(r.blocked_functions@) == blocked_names(),
        string_views(r.opaque_types@) == opaque_names(),
        !r.generate_comments,
{
    let mut config_arg = "-DMBEDTLS_CONFIG_FILE=<".to_owned();
    config_arg.append(config_h);
    config_arg.append(">");
    let mut include_arg = "-I".to_owned();
    include_arg.append(include_dir);
    let mut clang_args: Vec<String> = Vec::new();
    clang_args.push("-Dmbedtls_t_udbl=mbedtls_t_udbl;".to_owned());
    clang_args.push(config_arg);
    clang_args.push(include_arg);
    assert(string_views(clang_args@) =~= front_end_args(include_dir@, config_h@));
    let blocked = strings(&["strtold", "qecvt_r", "qecvt", "qfcvt_r", "qgcvt", "qfcvt"]);
    let opaque = strings(&["std::*"]);
    GeneratorConfig {
        header: header.to_owned(),
        clang_args,
        use_core: true,
        derive_debug: false,
        ctypes_prefix: "crate::types::raw_types".to_owned(),
        blocked_functions: blocked,
        opaque_types: opaque,
        generate_comments: false,
    }
}

/// The generated bindings `body` framed for the output file.
pub fn frame_bindings(body: &str) -> (r: String)
    ensures
        r@ == bindings_preamble() + body@ + bindings_trailer(),
{
    let mut r = "#![allow(nonstandard_style)]\n#![allow(unused_imports)]\n".to_owned();
    r.append(body);
    r.append("use crate::types::*;\n");
    r
}

/// The stub through which the surrounding crate declares the bindings module.
pub fn module_stub() -> (r: String)
    ensures
        r@ == "mod bindings;\n"@,
{
    "mod bindings;\n".to_owned()
}

} // verus!
