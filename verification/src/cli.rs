//! Validation and resolution of the values a comparison run is given on the
//! command line.

use vstd::prelude::*;

use crate::backend::Backend;

verus! {

/// An ASCII decimal digit.
pub open spec fn is_decimal_digit(c: char) -> bool {
    '0' <= c && c <= '9'
}

/// The number a run of decimal digits spells, most significant first.
pub open spec fn decimal_value(digits: Seq<char>) -> nat
    decreases digits.len(),
{
    if digits.len() == 0 {
        0
    } else {
        decimal_value(digits.drop_last()) * 10 + ((digits.last() as int) - ('0' as int)) as nat
    }
}

/// The digits of an unsigned number: the text without one leading `+`.
pub open spec fn unsigned_digits(s: Seq<char>) -> Seq<char> {
    if s.len() > 0 && s[0] == '+' {
        s.drop_first()
    } else {
        s
    }
}

/// What `str::parse::<usize>` accepts: an optional `+`, then one or more
/// decimal digits whose value fits in a `usize`; anything else (a `-`,
/// spaces, an empty string, overflow) is refused.
pub open spec fn parsed_usize(s: Seq<char>) -> Option<usize> {
    let digits = unsigned_digits(s);
    if digits.len() > 0 && (forall|i: int| 0 <= i < digits.len() ==> is_decimal_digit(digits[i]))
        && decimal_value(digits) <= usize::MAX {
        Some(decimal_value(digits) as usize)
    } else {
        None
    }
}

/// A run of digits reads at least as large as any of its prefixes.
proof fn lemma_decimal_value_prefix(t: Seq<char>, k: int)
    requires
        0 <= k <= t.len(),
        forall|i: int| 0 <= i < t.len() ==> is_decimal_digit(t[i]),
    ensures
        decimal_value(t.subrange(0, k)) <= decimal_value(t),
    decreases t.len(),
{
    if k == t.len() {
        assert(t.subrange(0, k) =~= t);
    } else {
        let u = t.drop_last();
        lemma_decimal_value_prefix(u, k);
        assert(u.subrange(0, k) =~= t.subrange(0, k));
    }
}

/// Reads a `usize` the way `str::parse::<usize>` does: an optional `+`,
/// then one or more decimal digits, refusing a value that overflows.
fn parse_usize(s: &str) -> (n: Option<usize>)
    ensures
        n == parsed_usize(s@),
{
    let len = s.unicode_len();
    let mut start: usize = 0;
    if len > 0 && s.get_char(0) == '+' {
        start = 1;
    }
    let ghost digits = unsigned_digits(s@);
    assert(digits =~= s@.subrange(start as int, len as int));
    if start == len {
        return None;
    }
    let mut value: usize = 0;
    let mut i: usize = start;
    while i < len
        invariant
            len == s@.len(),
            start < len,
            start <= i <= len,
            digits == unsigned_digits(s@),
            digits == s@.subrange(start as int, len as int),
            forall|k: int| start <= k < i ==> is_decimal_digit(s@[k]),
            value == decimal_value(s@.subrange(start as int, i as int)),
        decreases len - i,
    {
        let c = s.get_char(i);
        if !('0' <= c && c <= '9') {
            assert(!is_decimal_digit(digits[i - start]));
            assert(!(forall|k: int| 0 <= k < digits.len() ==> is_decimal_digit(digits[k])));
            return None;
        }
        let d: usize = (c as u32 - '0' as u32) as usize;
        let ghost next = s@.subrange(start as int, i + 1);
        assert(next.drop_last() =~= s@.subrange(start as int, i as int));
        assert(decimal_value(next) == value * 10 + d);
        let stepped = match value.checked_mul(10) {
            Some(v) => v.checked_add(d),
            None => None,
        };
        match stepped {
            Some(v) => {
                value = v;
            },
            None => {
                proof {
                    assert(value * 10 + d > usize::MAX) by (nonlinear_arith)
                        requires
                            value * 10 > usize::MAX || value * 10 + d > usize::MAX,
                            d >= 0,
                    ;
                    if forall|k: int| 0 <= k < digits.len() ==> is_decimal_digit(digits[k]) {
                        assert(digits.subrange(0, i + 1 - start) =~= next);
                        lemma_decimal_value_prefix(digits, i + 1 - start);
                        assert(decimal_value(digits) > usize::MAX);
                    }
                }
                return None;
            },
        }
        i = i + 1;
    }
    assert(s@.subrange(start as int, i as int) =~= digits);
    Some(value)
}

/// What `parse_max` and std's parser refuse: an empty text, a lone `+`, and
/// any text holding a character other than a decimal digit, bar one leading
/// `+`.
pub proof fn lemma_parsed_usize_refuses(s: Seq<char>, i: int)
    requires
        0 <= i < s.len(),
        !is_decimal_digit(s[i]),
        !(i == 0 && s[0] == '+'),
    ensures
        parsed_usize(s) is None,
        parsed_usize(Seq::<char>::empty()) is None,
        parsed_usize(seq!['+']) is None,
{
    let d = unsigned_digits(s);
    if s[0] == '+' {
        assert(d[i - 1] == s[i]);
    } else {
        assert(d[i] == s[i]);
    }
    assert(unsigned_digits(seq!['+']) =~= Seq::<char>::empty());
}

/// The decimal digit for a value below ten.
pub open spec fn digit_char(d: nat) -> char {
    if d == 0 {
        '0'
    } else if d == 1 {
        '1'
    } else if d == 2 {
        '2'
    } else if d == 3 {
        '3'
    } else if d == 4 {
        '4'
    } else if d == 5 {
        '5'
    } else if d == 6 {
        '6'
    } else if d == 7 {
        '7'
    } else if d == 8 {
        '8'
    } else {
        '9'
    }
}

/// The decimal text of a number, most significant digit first, with no
/// sign and no leading zeros (what `usize::to_string` prints).
pub open spec fn decimal_text(n: nat) -> Seq<char>
    decreases n,
{
    if n < 10 {
        seq![digit_char(n)]
    } else {
        decimal_text(n / 10).push(digit_char(n % 10))
    }
}

/// The decimal text of a number is a non-empty run of digits that reads
/// back as that number.
proof fn lemma_decimal_text_reads_back(n: nat)
    ensures
        decimal_text(n).len() > 0,
        forall|i: int| 0 <= i < decimal_text(n).len() ==> is_decimal_digit(#[trigger] decimal_text(n)[i]),
        decimal_value(decimal_text(n)) == n,
    decreases n,
{
    if n >= 10 {
        lemma_decimal_text_reads_back(n / 10);
        let t = decimal_text(n);
        assert(t.drop_last() =~= decimal_text(n / 10));
        assert(t.last() == digit_char(n % 10));
        assert((digit_char((n % 10) as nat) as int) - ('0' as int) == n % 10);
        assert(n == (n / 10) * 10 + n % 10);
        assert(decimal_value(t) == decimal_value(t.drop_last()) * 10 + n % 10);
    } else {
        let t = decimal_text(n);
        assert(t.drop_last() =~= Seq::<char>::empty());
        assert((digit_char(n) as int) - ('0' as int) == n);
        assert(decimal_value(t) == decimal_value(t.drop_last()) * 10 + n);
    }
}

/// Any `--max` of at least 1, written as decimal text, is read back as that
/// number: `parse_max` of the text of `n` returns `Ok(n)`.
pub proof fn lemma_parse_max_reads_decimal_text(n: usize)
    requires
        n >= 1,
    ensures
        parsed_usize(decimal_text(n as nat)) == Some(n),
{
    lemma_decimal_text_reads_back(n as nat);
    let t = decimal_text(n as nat);
    assert(is_decimal_digit(t[0]));
    assert(unsigned_digits(t) == t);
}

/// The message for a `--max` value that is not a whole number.
pub open spec fn not_whole_number_message(s: Seq<char>) -> Seq<char> {
    "`"@ + s + "` is not a whole number"@
}

/// Rejects `--max 0`, which would silently report nothing at all rather than
/// erroring.
pub fn parse_max(s: &str) -> (r: Result<usize, String>)
    ensures
        match parsed_usize(s@) {
            None => r matches Err(m) && m@ == not_whole_number_message(s@),
            Some(v) => if v == 0 {
                r matches Err(m) && m@ == "must be at least 1"@
            } else {
                r == Ok::<usize, String>(v)
            },
        },
{
    match parse_usize(s) {
        None => {
            let mut m = String::from_str("`");
            m.append(s);
            m.append("` is not a whole number");
            Err(m)
        },
        Some(v) => {
            if v > 0 {
                Ok(v)
            } else {
                Err(String::from_str("must be at least 1"))
            }
        },
    }
}


/// ASCII upper-case letters mapped to lower case; every other character kept.
pub open spec fn ascii_lower(c: char) -> char {
    if 'A' <= c && c <= 'Z' {
        ((c as u32) + 32) as char
    } else {
        c
    }
}

/// A text with its ASCII letters in lower case.
pub open spec fn ascii_lowercase(s: Seq<char>) -> Seq<char> {
    s.map_values(|c: char| ascii_lower(c))
}

/// Calls std's `str::to_ascii_lowercase`, which documents that it maps
/// 'A'..='Z' to 'a'..='z' and leaves every other character unchanged.
#[verifier::external_body]
fn to_ascii_lowercase(s: &str) -> (lower: String)
    ensures
        lower@ == ascii_lowercase(s@),
{
    s.to_ascii_lowercase()
}

/// The backend a lowercase name selects, if any.
pub open spec fn backend_named(name: Seq<char>) -> Option<Backend> {
    if name == "sface"@ {
        Some(Backend::SFace)
    } else if name == "arcface"@ {
        Some(Backend::ArcFace)
    } else {
        None
    }
}

/// The message for a `--backend` value that names no backend.
pub open spec fn unknown_backend_message(lower: Seq<char>) -> Seq<char> {
    "unknown backend `"@ + lower + "` (expected `sface` or `arcface`)"@
}

/// Parses `--backend`, ignoring ASCII case.
pub fn parse_backend(s: &str) -> (r: Result<Backend, String>)
    ensures
        match backend_named(ascii_lowercase(s@)) {
            Some(b) => r == Ok::<Backend, String>(b),
            None => r matches Err(m) && m@ == unknown_backend_message(ascii_lowercase(s@)),
        },
{
    let lower = to_ascii_lowercase(s);
    if lower == String::from_str("sface") {
        Ok(Backend::SFace)
    } else if lower == String::from_str("arcface") {
        Ok(Backend::ArcFace)
    } else {
        let mut m = String::from_str("unknown backend `");
        m.append(lower.as_str());
        m.append("` (expected `sface` or `arcface`)");
        Err(m)
    }
}


/// The name a backend prints as (`Backend::as_str`) is accepted by
/// `parse_backend` and selects that same backend.
pub proof fn lemma_backend_name_round_trip(b: Backend)
    ensures
        backend_named(ascii_lowercase(crate::backend::backend_name(b))) == Some(b),
{
    reveal_strlit("sface");
    reveal_strlit("arcface");
    let name = crate::backend::backend_name(b);
    assert(ascii_lowercase(name) =~= name);
}

/// ASCII lower-case letters mapped to upper case; every other character kept.
pub open spec fn ascii_upper(c: char) -> char {
    if 'a' <= c && c <= 'z' {
        ((c as u32) - 32) as char
    } else {
        c
    }
}

/// Every ASCII-case variant of a backend's name (each letter as printed or
/// in upper case, so "SFACE", "ArcFace" and the name itself among them) is
/// accepted by `parse_backend` and selects that backend.
pub proof fn lemma_backend_case_variants(b: Backend, s: Seq<char>)
    requires
        s.len() == crate::backend::backend_name(b).len(),
        forall|i: int|
            0 <= i < s.len() ==> s[i] == crate::backend::backend_name(b)[i] || s[i] == ascii_upper(
                crate::backend::backend_name(b)[i],
            ),
    ensures
        backend_named(ascii_lowercase(s)) == Some(b),
{
    reveal_strlit("sface");
    reveal_strlit("arcface");
    let name = crate::backend::backend_name(b);
    assert forall|i: int| 0 <= i < s.len() implies ascii_lower(s[i]) == name[i] by {
        let c = name[i];
        assert('a' <= c && c <= 'z');
    }
    assert(ascii_lowercase(s) =~= name);
}

/// The upper-case form of a backend's name selects that backend.
pub proof fn lemma_backend_upper_case(b: Backend)
    ensures
        backend_named(ascii_lowercase(crate::backend::backend_name(b).map_values(|c: char| ascii_upper(c))))
            == Some(b),
{
    let name = crate::backend::backend_name(b);
    lemma_backend_case_variants(b, name.map_values(|c: char| ascii_upper(c)));
}

/// Lowercasing twice is lowercasing once, so `parse_backend` gives a text and
/// its lowercase form the same answer: the name is read without regard to
/// ASCII case.
pub proof fn lemma_backend_case_insensitive(s: Seq<char>)
    ensures
        ascii_lowercase(ascii_lowercase(s)) == ascii_lowercase(s),
        backend_named(ascii_lowercase(ascii_lowercase(s))) == backend_named(ascii_lowercase(s)),
{
    assert(ascii_lowercase(ascii_lowercase(s)) =~= ascii_lowercase(s));
}


/// The environment variable that names a backend's weights when
/// `--encoder-model` is not given.
pub open spec fn encoder_model_var_name(b: Backend) -> Seq<char> {
    match b {
        Backend::SFace => "FACECOMP_ENCODER_MODEL"@,
        Backend::ArcFace => "FACECOMP_ARCFACE_MODEL"@,
    }
}

/// The environment variable each backend reads its weights path from, so
/// both bundled models can be exported up front and `--backend` picks one.
pub fn encoder_model_var(backend: Backend) -> (var: &'static str)
    ensures
        var@ == encoder_model_var_name(backend),
{
    match backend {
        Backend::SFace => "FACECOMP_ENCODER_MODEL",
        Backend::ArcFace => "FACECOMP_ARCFACE_MODEL",
    }
}

/// The message when neither the flag nor the environment names the weights.
pub open spec fn no_model_message(b: Backend) -> Seq<char> {
    "no model for --backend "@ + crate::backend::backend_name(b)
        + ": pass --encoder-model or set $"@ + encoder_model_var_name(b)
}

/// Resolves which weights file to load. `--encoder-model` wins if present;
/// otherwise `from_env` is the value of the backend's own environment
/// variable (`encoder_model_var`), if it is set.
pub fn resolve_encoder_model<P>(explicit: Option<P>, backend: Backend, from_env: Option<P>) -> (r:
    Result<P, String>)
    ensures
        match explicit {
            Some(p) => r == Ok::<P, String>(p),
            None => match from_env {
                Some(p) => r == Ok::<P, String>(p),
                None => r matches Err(m) && m@ == no_model_message(backend),
            },
        },
{
    if let Some(path) = explicit {
        return Ok(path);
    }
    match from_env {
        Some(path) => Ok(path),
        None => {
            let mut m = String::from_str("no model for --backend ");
            m.append(backend.as_str());
            m.append(": pass --encoder-model or set $");
            m.append(encoder_model_var(backend));
            Err(m)
        },
    }
}

/// The message when a backend has no default cutoff and none was given.
pub open spec fn no_threshold_message(b: Backend) -> Seq<char> {
    "--backend "@ + crate::backend::backend_name(b)
        + " has no default --threshold yet, so one must be given explicitly."@
}

/// Resolves the same/different cutoff, refusing to invent one: an explicit
/// `--threshold` wins, else `default` (the backend's own default cutoff, if
/// it has one) is used.
pub fn resolve_threshold<T>(explicit: Option<T>, backend: Backend, default: Option<T>) -> (r: Result<
    T,
    String,
>)
    ensures
        match explicit {
            Some(t) => r == Ok::<T, String>(t),
            None => match default {
                Some(t) => r == Ok::<T, String>(t),
                None => r matches Err(m) && m@ == no_threshold_message(backend),
            },
        },
{
    match explicit {
        Some(t) => Ok(t),
        None => match default {
            Some(t) => Ok(t),
            None => {
                let mut m = String::from_str("--backend ");
                m.append(backend.as_str());
                m.append(" has no default --threshold yet, so one must be given explicitly.");
                Err(m)
            },
        },
    }
}

/// A character that makes a `--slave` value a glob pattern.
pub open spec fn is_glob_char(c: char) -> bool {
    c == '*' || c == '?' || c == '['
}

/// Whether a `--slave` value is expanded as a glob pattern (it holds `*`,
/// `?` or `[`) rather than taken as a literal path.
pub fn is_glob_pattern(pattern: &str) -> (glob: bool)
    ensures
        glob == exists|i: int| 0 <= i < pattern@.len() && is_glob_char(#[trigger] pattern@[i]),
        glob == exists|i: int|
            0 <= i < pattern@.len() && (#[trigger] pattern@[i] == '*' || pattern@[i] == '?'
                || pattern@[i] == '['),
{
    let n = pattern.unicode_len();
    let mut i: usize = 0;
    while i < n
        invariant
            n == pattern@.len(),
            i <= n,
            forall|j: int| 0 <= j < i ==> !is_glob_char(#[trigger] pattern@[j]),
        decreases n - i,
    {
        let c = pattern.get_char(i);
        if c == '*' || c == '?' || c == '[' {
            return true;
        }
        i = i + 1;
    }
    false
}

} // verus!
