//! Mapping of free-form tag text onto device-safe path components.
use vstd::prelude::*;

use crate::text::push_char;

verus! {

/// An ASCII letter or digit.
pub open spec fn is_ascii_alnum(c: char) -> bool {
    ('a' <= c && c <= 'z') || ('A' <= c && c <= 'Z') || ('0' <= c && c <= '9')
}

/// The characters that a device-safe name keeps as they are.
pub open spec fn is_allowed_char(c: char) -> bool {
    is_ascii_alnum(c) || c == ' ' || c == '.' || c == '(' || c == ')'
}

/// One character of a sanitised name.
pub open spec fn sanitize_char(c: char) -> char {
    if is_allowed_char(c) {
        c
    } else {
        '_'
    }
}

/// A name with every character outside the allow-list replaced by `_`.
pub open spec fn sanitized(s: Seq<char>) -> Seq<char> {
    s.map_values(|c: char| sanitize_char(c))
}

fn is_allowed(c: char) -> (r: bool)
    ensures
        r == is_allowed_char(c),
{
    ('a' <= c && c <= 'z') || ('A' <= c && c <= 'Z') || ('0' <= c && c <= '9') || c == ' '
        || c == '.' || c == '(' || c == ')'
}

/// Replaces every character that is not an ASCII letter or digit, a space,
/// `.`, `(` or `)` with `_`.
pub fn adjust_file_name(name: String) -> (r: String)
    ensures
        r@ == sanitized(name@),
{
    let n: usize = name.as_str().unicode_len();
    let mut out = String::new();
    let mut i: usize = 0;
    while i < n
        invariant
            n == name@.len(),
            i <= n,
            out@ == sanitized(name@.subrange(0, i as int)),
        decreases n - i,
    {
        let c = name.as_str().get_char(i);
        if is_allowed(c) {
            push_char(&mut out, c);
        } else {
            push_char(&mut out, '_');
        }
        proof {
            assert(name@.subrange(0, i + 1) =~= name@.subrange(0, i as int).push(c));
        }
        assert(out@ =~= sanitized(name@.subrange(0, i + 1)));
        i = i + 1;
    }
    assert(name@.subrange(0, n as int) =~= name@);
    out
}

/// Every character of a sanitised name is an ASCII letter or digit, a space,
/// `.`, `(`, `)`, or the replacement character `_`.
pub proof fn lemma_sanitized_chars(s: Seq<char>)
    ensures
        forall|i: int|
            0 <= i < sanitized(s).len() ==> #[trigger] is_allowed_char(sanitized(s)[i])
                || sanitized(s)[i] == '_',
{
}

/// A name whose characters are all allowed sanitises to itself, so every
/// character of the result is allowed.
pub proof fn lemma_sanitized_allowed_only(s: Seq<char>)
    requires
        forall|i: int| 0 <= i < s.len() ==> #[trigger] is_allowed_char(s[i]),
    ensures
        sanitized(s) == s,
        forall|i: int| 0 <= i < sanitized(s).len() ==> #[trigger] is_allowed_char(sanitized(s)[i]),
{
    assert(sanitized(s) =~= s);
}

/// Sanitising twice gives the same name as sanitising once.
pub proof fn lemma_sanitize_idempotent(s: Seq<char>)
    ensures
        sanitized(sanitized(s)) == sanitized(s),
{
    assert(sanitized(sanitized(s)) =~= sanitized(s));
}

} // verus!
