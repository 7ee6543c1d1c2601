//! Metric-name rules of the Prometheus exposition formats.
use vstd::prelude::*;
use vstd::string::StrSliceExecFns;

verus! {

/// `c` may start a metric name: `[a-zA-Z_:]`.
pub open spec fn is_name_start_char(c: char) -> bool {
    ('a' <= c <= 'z') || ('A' <= c <= 'Z') || c == '_' || c == ':'
}

/// `c` may continue a metric name: `[a-zA-Z0-9_:]`.
pub open spec fn is_name_char(c: char) -> bool {
    is_name_start_char(c) || ('0' <= c <= '9')
}

/// `name` with every character that is not allowed at its position replaced by `_`.
pub open spec fn sanitized_name(name: Seq<char>) -> Seq<char> {
    Seq::new(
        name.len(),
        |i: int|
            if (i == 0 && is_name_start_char(name[i])) || (i > 0 && is_name_char(name[i])) {
                name[i]
            } else {
                '_'
            },
    )
}

/// `name` ends with `suffix`.
pub open spec fn ends_with(name: Seq<char>, suffix: Seq<char>) -> bool {
    suffix.len() <= name.len() && name.subrange(name.len() - suffix.len(), name.len() as int)
        == suffix
}

/// `name`, followed by `_` and the suffix unless it already ends with the suffix.
pub open spec fn name_with_suffix(name: Seq<char>, suffix: Option<Seq<char>>) -> Seq<char> {
    match suffix {
        Some(s) => if ends_with(name, s) {
            name
        } else {
            name + seq!['_'] + s
        },
        None => name,
    }
}

/// `name` is a valid metric name: it is not empty, its first character
/// matches `[a-zA-Z_:]` and the others `[a-zA-Z0-9_:]`.
pub open spec fn is_valid_name(name: Seq<char>) -> bool {
    name.len() > 0 && is_name_start_char(name[0]) && forall|i: int|
        1 <= i < name.len() ==> is_name_char(#[trigger] name[i])
}

/// Sanitizing keeps the length, yields a valid name from any non-empty name,
/// leaves a valid name as it is, and so changes nothing the second time.
pub proof fn lemma_sanitized_name(name: Seq<char>)
    ensures
        sanitized_name(name).len() == name.len(),
        name.len() > 0 ==> is_valid_name(sanitized_name(name)),
        is_valid_name(name) ==> sanitized_name(name) == name,
        sanitized_name(sanitized_name(name)) == sanitized_name(name),
{
    let s = sanitized_name(name);
    if is_valid_name(name) {
        assert(s =~= name);
    }
    assert(sanitized_name(s) =~= s);
}

/// Sanitizing keeps the length and works character by character, whether or
/// not the name as a whole is valid: a letter, `_` or `:` stays, a digit stays
/// except in the first position, and every other character becomes `_`.
pub proof fn lemma_sanitized_chars(name: Seq<char>)
    ensures
        sanitized_name(name).len() == name.len(),
        forall|i: int|
            0 <= i < name.len() ==> #[trigger] sanitized_name(name)[i] == if ('a' <= name[i] <= 'z')
                || ('A' <= name[i] <= 'Z') || name[i] == '_' || name[i] == ':' || (i > 0 && '0'
                <= name[i] <= '9') {
                name[i]
            } else {
                '_'
            },
{
}

/// With a suffix, the name that comes out ends with it; so adding the suffix
/// a second time changes nothing.
pub proof fn lemma_suffix_idempotent(name: Seq<char>, suffix: Option<Seq<char>>)
    ensures
        suffix matches Some(s) ==> ends_with(name_with_suffix(name, suffix), s),
        name_with_suffix(name_with_suffix(name, suffix), suffix) == name_with_suffix(name, suffix),
{
    if let Some(s) = suffix {
        if !ends_with(name, s) {
            let n = name + seq!['_'] + s;
            assert(n.subrange(n.len() - s.len(), n.len() as int) =~= s);
        }
    }
}

pub open spec fn opt_str_view(s: Option<&str>) -> Option<Seq<char>> {
    match s {
        Some(x) => Some(x@),
        None => None,
    }
}

/// Whether `name` ends with `suffix`, compared character by character.
pub fn str_ends_with(name: &str, suffix: &str) -> (b: bool)
    ensures
        b == ends_with(name@, suffix@),
{
    let n = name.unicode_len();
    let k = suffix.unicode_len();
    if k > n {
        return false;
    }
    let mut j: usize = 0;
    while j < k
        invariant
            n == name@.len(),
            k == suffix@.len(),
            k <= n,
            j <= k,
            forall|t: int| 0 <= t < j ==> name@[n - k + t] == suffix@[t],
        decreases k - j,
    {
        if name.get_char(n - k + j) != suffix.get_char(j) {
            assert(name@.subrange(n - k, n as int)[j as int] != suffix@[j as int]);
            return false;
        }
        j = j + 1;
    }
    assert(name@.subrange(n - k, n as int) =~= suffix@);
    true
}

/// Replaces every character not allowed in a metric name with `_`: the first
/// character must match `[a-zA-Z_:]`, the others `[a-zA-Z0-9_:]`.
pub fn sanitize_metric_name(name: &str) -> (out: String)
    ensures
        out@ == sanitized_name(name@),
        out@.len() == name@.len(),
        forall|i: int|
            0 <= i < name@.len() ==> #[trigger] out@[i] == if ('a' <= name@[i] <= 'z') || ('A'
                <= name@[i] <= 'Z') || name@[i] == '_' || name@[i] == ':' || (i > 0 && '0'
                <= name@[i] <= '9') {
                name@[i]
            } else {
                '_'
            },
{
    proof {
        lemma_sanitized_chars(name@);
    }
    let n = name.unicode_len();
    let mut out = String::new();
    let mut i: usize = 0;
    proof {
        reveal_strlit("_");
    }
    while i < n
        invariant
            n == name@.len(),
            i <= n,
            out@ == sanitized_name(name@).take(i as int),
            "_"@ == seq!['_'],
        decreases n - i,
    {
        let c = name.get_char(i);
        let ok = if i == 0 {
            ('a' <= c && c <= 'z') || ('A' <= c && c <= 'Z') || c == '_' || c == ':'
        } else {
            ('a' <= c && c <= 'z') || ('A' <= c && c <= 'Z') || ('0' <= c && c <= '9') || c == '_'
                || c == ':'
        };
        if ok {
            out.append(name.substring_char(i, i + 1));
        } else {
            out.append("_");
        }
        assert(out@ =~= sanitized_name(name@).take(i + 1));
        i = i + 1;
    }
    assert(sanitized_name(name@).take(n as int) =~= sanitized_name(name@));
    out
}

} // verus!
