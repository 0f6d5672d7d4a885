use vstd::prelude::*;
use vstd::string::*;

verus! {

/// `p` is a prefix of `s`.
pub open spec fn has_prefix(s: Seq<char>, p: Seq<char>) -> bool {
    p.len() <= s.len() && s.subrange(0, p.len() as int) == p
}

/// `p` occurs somewhere in `s`.
pub open spec fn contains(s: Seq<char>, p: Seq<char>) -> bool {
    exists|k: int| 0 <= k && k + p.len() <= s.len() && #[trigger] s.subrange(k, k + p.len()) == p
}

/// `s` with its first `p.len()` characters, the prefix `p`, removed.
pub open spec fn without_prefix(s: Seq<char>, p: Seq<char>) -> Seq<char> {
    s.subrange(p.len() as int, s.len() as int)
}

/// The one declared name that keeps its library prefix.
pub open spec fn exempt_name() -> Seq<char> {
    "mbedtls_time_t"@
}

/// The prefix of enum variants that the generator qualifies with their type.
pub open spec fn cipher_mode_prefix() -> Seq<char> {
    "cipher_mode_t_MBEDTLS_"@
}

/// The prefix of functions and types.
pub open spec fn lower_prefix() -> Seq<char> {
    "mbedtls_"@
}

/// The prefix of macros and constants; also what marks a library macro.
pub open spec fn upper_prefix() -> Seq<char> {
    "MBEDTLS_"@
}

/// The renaming policy: the name a declaration gets in the bindings, or `None`
/// where the generator's own choice stands. The first rule that applies wins;
/// a prefix is removed once.
pub open spec fn renamed(name: Seq<char>) -> Option<Seq<char>> {
    if name == exempt_name() {
        Some(name)
    } else if has_prefix(name, cipher_mode_prefix()) {
        Some(without_prefix(name, cipher_mode_prefix()))
    } else if has_prefix(name, lower_prefix()) {
        Some(without_prefix(name, lower_prefix()))
    } else if has_prefix(name, upper_prefix()) {
        Some(without_prefix(name, upper_prefix()))
    } else {
        None
    }
}

/// The integer type given to a macro constant of the library.
#[derive(PartialEq, Eq, Structural, Clone, Copy, Debug)]
pub enum IntKind {
    /// A 32-bit signed integer.
    I32,
}

/// The integer-macro typing policy: library macros are `i32`, the others are
/// left to the generator.
pub open spec fn macro_kind(name: Seq<char>) -> Option<IntKind> {
    if contains(name, upper_prefix()) {
        Some(IntKind::I32)
    } else {
        None
    }
}

/// Whether `p` occurs in `s` at character position `k`.
fn occurs_at(s: &str, k: usize, p: &str) -> (r: bool)
    requires
        k <= s@.len(),
    ensures
        r == (k + p@.len() <= s@.len() && s@.subrange(k as int, k + p@.len()) == p@),
{
    let n = s.unicode_len();
    let m = p.unicode_len();
    if m > n - k {
        return false;
    }
    let mut j: usize = 0;
    while j < m
        invariant
            n == s@.len(),
            m == p@.len(),
            k + m <= n,
            j <= m,
            forall|i: int| 0 <= i < j ==> s@[k + i] == p@[i],
        decreases m - j,
    {
        if s.get_char(k + j) != p.get_char(j) {
            assert(s@.subrange(k as int, k + m)[j as int] != p@[j as int]);
            return false;
        }
        j = j + 1;
    }
    assert(s@.subrange(k as int, k + m) =~= p@);
    true
}

/// `s` with its prefix `p` removed once.
fn strip_prefix(s: &str, p: &str) -> (r: String)
    requires
        has_prefix(s@, p@),
    ensures
        r@ == without_prefix(s@, p@),
{
    s.substring_char(p.unicode_len(), s.unicode_len()).to_owned()
}

/// Whether `p` is a prefix of `s`.
fn starts_with(s: &str, p: &str) -> (r: bool)
    ensures
        r == has_prefix(s@, p@),
{
    let r = occurs_at(s, 0, p);
    assert(r ==> s@.subrange(0, p@.len() as int) =~= p@);
    r
}

/// The renaming policy applied to the declared name `name`: `Some` with the
/// name to use, or `None` where the generator's default name stands.
pub fn item_name(name: &str) -> (r: Option<String>)
    ensures
        r matches Some(v) ==> renamed(name@) == Some(v@),
        r is None <==> renamed(name@) is None,
{
    proof {
        reveal_strlit("mbedtls_time_t");
        reveal_strlit("cipher_mode_t_MBEDTLS_");
        reveal_strlit("mbedtls_");
        reveal_strlit("MBEDTLS_");
    }
    let exempt = "mbedtls_time_t";
    assert(name@ == exempt_name() ==> name@.subrange(0, name@.len() as int) =~= name@);
    if starts_with(name, exempt) && name.unicode_len() == exempt.unicode_len() {
        assert(name@ =~= exempt_name());
        Some(name.to_owned())
    } else if starts_with(name, "cipher_mode_t_MBEDTLS_") {
        Some(strip_prefix(name, "cipher_mode_t_MBEDTLS_"))
    } else if starts_with(name, "mbedtls_") {
        Some(strip_prefix(name, "mbedtls_"))
    } else if starts_with(name, "MBEDTLS_") {
        Some(strip_prefix(name, "MBEDTLS_"))
    } else {
        None
    }
}

/// The integer-macro typing policy applied to the macro `name`.
pub fn int_macro(name: &str) -> (r: Option<IntKind>)
    ensures
        r == macro_kind(name@),
{
    proof {
        reveal_strlit("MBEDTLS_");
    }
    let p = "MBEDTLS_";
    let n = name.unicode_len();
    let m = p.unicode_len();
    if m > n {
        return None;
    }
    assert(p@.len() == 8);
    let mut k: usize = 0;
    while k <= n - m
        invariant
            m > 0,
            n == name@.len(),
            m == p@.len(),
            m <= n,
            p@ == upper_prefix(),
            forall|i: int|
                0 <= i < k && i + m <= n ==> #[trigger] name@.subrange(i, i + m) != p@,
        decreases n - m + 1 - k,
    {
        if occurs_at(name, k, p) {
            return Some(IntKind::I32);
        }
        k = k + 1;
    }
    None
}

} // verus!
