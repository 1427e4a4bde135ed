use vstd::prelude::*;
use vstd::string::StrSliceExecFns;
use vstd::string::StringExecFns;

verus! {

/// Unicode `White_Space`, the characters that `str::trim` removes.
pub open spec fn is_white(c: char) -> bool {
    let u = c as u32;
    (0x09 <= u && u <= 0x0d) || u == 0x20 || u == 0x85 || u == 0xa0 || u == 0x1680 || (0x2000
        <= u && u <= 0x200a) || u == 0x2028 || u == 0x2029 || u == 0x202f || u == 0x205f || u
        == 0x3000
}

/// `s` without its leading white space.
pub open spec fn trim_start(s: Seq<char>) -> Seq<char>
    decreases s.len(),
{
    if s.len() > 0 && is_white(s[0]) {
        trim_start(s.drop_first())
    } else {
        s
    }
}

/// `s` without its trailing white space.
pub open spec fn trim_end(s: Seq<char>) -> Seq<char>
    decreases s.len(),
{
    if s.len() > 0 && is_white(s.last()) {
        trim_end(s.drop_last())
    } else {
        s
    }
}

/// `s` without leading and trailing white space.
pub open spec fn trimmed(s: Seq<char>) -> Seq<char> {
    trim_end(trim_start(s))
}

/// The ASCII lower-case form of a character; other characters are kept.
pub open spec fn lower_char(c: char) -> char {
    if 'A' <= c && c <= 'Z' {
        ((c as u32) + 32) as char
    } else {
        c
    }
}

/// The ASCII lower-case form of a text.
pub open spec fn lower(s: Seq<char>) -> Seq<char> {
    s.map_values(|c: char| lower_char(c))
}

/// Two texts that are equal up to ASCII case.
pub open spec fn eq_ignore_case(a: Seq<char>, b: Seq<char>) -> bool {
    lower(a) == lower(b)
}

/// `p` occurs in `s` as a run of consecutive characters.
pub open spec fn has_infix(s: Seq<char>, p: Seq<char>) -> bool {
    exists|i: int| 0 <= i && i + p.len() <= s.len() && #[trigger] s.subrange(i, i + p.len()) == p
}

pub open spec fn is_id_char(c: char) -> bool {
    ('a' <= c && c <= 'z') || ('0' <= c && c <= '9')
}

pub open spec fn is_id_sep(c: char) -> bool {
    c == ' ' || c == '\t' || c == '\n' || c == '\r' || c == '\x0c' || c == '-' || c == '_'
}

/// The characters that `sanitize` emits for `s`, before trailing dashes are
/// cut, and whether the last one was a dash.
pub open spec fn sanitize_run(s: Seq<char>) -> (Seq<char>, bool)
    decreases s.len(),
{
    if s.len() == 0 {
        (Seq::empty(), true)
    } else {
        let (out, dash) = sanitize_run(s.drop_last());
        let c = lower_char(s.last());
        if is_id_char(c) {
            (out.push(c), false)
        } else if is_id_sep(c) && !dash {
            (out.push('-'), true)
        } else {
            (out, dash)
        }
    }
}

/// `s` without trailing dashes.
pub open spec fn trim_dash_end(s: Seq<char>) -> Seq<char>
    decreases s.len(),
{
    if s.len() > 0 && s.last() == '-' {
        trim_dash_end(s.drop_last())
    } else {
        s
    }
}

/// The identifier form of a text: ASCII letters lowered, letters and digits
/// kept, each run of white space, `-` and `_` turned into a single `-`, other
/// characters dropped, and no dash at either end.
pub open spec fn sanitized(s: Seq<char>) -> Seq<char> {
    trim_dash_end(sanitize_run(s).0)
}

/// A text that is already an identifier: letters, digits and single dashes
/// between them.
pub open spec fn is_canonical_id(s: Seq<char>) -> bool {
    &&& forall|i: int| 0 <= i < s.len() ==> is_id_char(#[trigger] s[i]) || s[i] == '-'
    &&& s.len() > 0 ==> is_id_char(s[0]) && is_id_char(s.last())
    &&& forall|i: int| 0 <= i < s.len() - 1 && #[trigger] s[i] == '-' ==> s[i + 1] != '-'
}

pub proof fn lemma_trim_start_shape(s: Seq<char>)
    ensures
        trim_start(s).len() == 0 || !is_white(trim_start(s)[0]),
    decreases s.len(),
{
    if s.len() > 0 && is_white(s[0]) {
        lemma_trim_start_shape(s.drop_first());
    }
}

pub proof fn lemma_trim_end_shape(s: Seq<char>)
    ensures
        trim_end(s).len() == 0 || !is_white(trim_end(s).last()),
        trim_end(s).len() <= s.len(),
        trim_end(s) == s.subrange(0, trim_end(s).len() as int),
    decreases s.len(),
{
    if s.len() > 0 && is_white(s.last()) {
        lemma_trim_end_shape(s.drop_last());
        assert(s.drop_last().subrange(0, trim_end(s).len() as int) == s.subrange(
            0,
            trim_end(s).len() as int,
        ));
    } else {
        assert(s.subrange(0, s.len() as int) == s);
    }
}

/// Trimming a trimmed text changes nothing.
pub proof fn lemma_trimmed_idempotent(s: Seq<char>)
    ensures
        trimmed(trimmed(s)) == trimmed(s),
{
    let t = trim_start(s);
    let u = trim_end(t);
    lemma_trim_start_shape(s);
    lemma_trim_end_shape(t);
    if u.len() > 0 {
        assert(u[0] == t[0]);
    }
    assert(trim_start(u) == u);
    assert(trim_end(u) == u);
}

pub proof fn lemma_trim_dash_end_shape(s: Seq<char>)
    ensures
        trim_dash_end(s).len() <= s.len(),
        trim_dash_end(s) == s.subrange(0, trim_dash_end(s).len() as int),
        trim_dash_end(s).len() == 0 || trim_dash_end(s).last() != '-',
    decreases s.len(),
{
    if s.len() > 0 && s.last() == '-' {
        lemma_trim_dash_end_shape(s.drop_last());
        assert(s.drop_last().subrange(0, trim_dash_end(s).len() as int) == s.subrange(
            0,
            trim_dash_end(s).len() as int,
        ));
    } else {
        assert(s.subrange(0, s.len() as int) == s);
    }
}

/// What `sanitize_run` emits: letters, digits and dashes, no dash first, no
/// two dashes in a row, and the flag tells whether it ends in a dash (or is
/// empty).
pub proof fn lemma_sanitize_run_shape(s: Seq<char>)
    ensures
        ({
            let (out, dash) = sanitize_run(s);
            &&& forall|i: int| 0 <= i < out.len() ==> is_id_char(#[trigger] out[i]) || out[i] == '-'
            &&& out.len() > 0 ==> is_id_char(out[0])
            &&& forall|i: int| 0 <= i < out.len() - 1 && #[trigger] out[i] == '-' ==> out[i + 1] != '-'
            &&& dash <==> (out.len() == 0 || out.last() == '-')
        }),
    decreases s.len(),
{
    if s.len() > 0 {
        lemma_sanitize_run_shape(s.drop_last());
        let (out, dash) = sanitize_run(s.drop_last());
        let c = lower_char(s.last());
        if is_id_char(c) {
            let o2 = out.push(c);
            assert forall|i: int| 0 <= i < o2.len() - 1 && #[trigger] o2[i] == '-' implies o2[i + 1] != '-' by {
                if i < out.len() - 1 {
                    assert(o2[i] == out[i] && o2[i + 1] == out[i + 1]);
                }
            }
        } else if is_id_sep(c) && !dash {
            let o2 = out.push('-');
            assert forall|i: int| 0 <= i < o2.len() - 1 && #[trigger] o2[i] == '-' implies o2[i + 1] != '-' by {
                if i < out.len() - 1 {
                    assert(o2[i] == out[i] && o2[i + 1] == out[i + 1]);
                }
            }
        }
    }
}

/// A sanitized text is an identifier.
pub proof fn lemma_sanitized_canonical(s: Seq<char>)
    ensures
        is_canonical_id(sanitized(s)),
{
    let out = sanitize_run(s).0;
    lemma_sanitize_run_shape(s);
    lemma_trim_dash_end_shape(out);
    let r = sanitized(s);
    assert forall|i: int| 0 <= i < r.len() implies is_id_char(#[trigger] r[i]) || r[i] == '-' by {
        assert(r[i] == out[i]);
    }
    assert forall|i: int| 0 <= i < r.len() - 1 && #[trigger] r[i] == '-' implies r[i + 1] != '-' by {
        assert(r[i] == out[i] && r[i + 1] == out[i + 1]);
    }
    if r.len() > 0 {
        assert(r[0] == out[0]);
        assert(r.last() == r[r.len() - 1]);
    }
}

proof fn lemma_sanitize_run_canonical_prefix(s: Seq<char>)
    requires
        forall|i: int| 0 <= i < s.len() ==> is_id_char(#[trigger] s[i]) || s[i] == '-',
        s.len() > 0 ==> is_id_char(s[0]),
        forall|i: int| 0 <= i < s.len() - 1 && #[trigger] s[i] == '-' ==> s[i + 1] != '-',
    ensures
        sanitize_run(s).0 == s,
        sanitize_run(s).1 <==> (s.len() == 0 || s.last() == '-'),
    decreases s.len(),
{
    if s.len() > 0 {
        let p = s.drop_last();
        assert forall|i: int| 0 <= i < p.len() - 1 && #[trigger] p[i] == '-' implies p[i + 1] != '-' by {
            assert(s[i] == p[i] && s[i + 1] == p[i + 1]);
        }
        assert forall|i: int| 0 <= i < p.len() implies is_id_char(#[trigger] p[i]) || p[i] == '-' by {
            assert(s[i] == p[i]);
        }
        if p.len() > 0 {
            assert(p[0] == s[0]);
        }
        lemma_sanitize_run_canonical_prefix(p);
        assert(s.last() == s[s.len() - 1]);
        if p.len() > 0 && s.last() == '-' {
            assert(p.last() == s[s.len() - 2]);
            assert(s[s.len() - 2] != '-');
        }
        assert(p.push(s.last()) == s);
    }
}

/// An identifier is its own sanitized form.
pub proof fn lemma_canonical_fixed(s: Seq<char>)
    requires
        is_canonical_id(s),
    ensures
        sanitized(s) == s,
{
    lemma_sanitize_run_canonical_prefix(s);
    if s.len() > 0 {
        assert(s.last() != '-');
    }
}

/// Relies on `str::trim`, which removes leading and trailing characters of
/// the Unicode `White_Space` property.
#[verifier::external_body]
pub(crate) fn trim_text(s: &str) -> (r: String)
    ensures
        r@ == trimmed(s@),
{
    s.trim().to_string()
}

/// The ASCII lower-case form of a text (see `lower`).
pub(crate) fn lower_text(s: &str) -> (r: String)
    ensures
        r@ == lower(s@),
{
    let n = s.unicode_len();
    let mut out = String::new();
    let mut i: usize = 0;
    while i < n
        invariant
            n == s@.len(),
            0 <= i <= n,
            out@ == lower(s@.subrange(0, i as int)),
        decreases n - i,
    {
        let c = lower_ascii_char(s.get_char(i));
        push_char(&mut out, c);
        proof {
            assert(lower(s@.subrange(0, i + 1)) =~= lower(s@.subrange(0, i as int)).push(lower_char(s@[i as int])));
        }
        i = i + 1;
    }
    proof {
        assert(s@.subrange(0, n as int) =~= s@);
    }
    out
}

/// Whether `p` occurs in `s` (see `has_infix`).
pub(crate) fn contains_text(s: &str, p: &str) -> (r: bool)
    ensures
        r == has_infix(s@, p@),
{
    let n = s.unicode_len();
    let m = p.unicode_len();
    if m > n {
        return false;
    }
    if m == 0 {
        assert(s@.subrange(0int, 0int + p@.len()) =~= p@);
        return true;
    }
    let pat = String::from_str(p);
    let mut i: usize = 0;
    while i <= n - m
        invariant
            n == s@.len(),
            m == p@.len(),
            1 <= m <= n,
            pat@ == p@,
            0 <= i <= n - m + 1,
            forall|j: int| 0 <= j < i ==> #[trigger] s@.subrange(j, j + m) != p@,
        decreases n - m + 1 - i,
    {
        let part = String::from_str(s.substring_char(i, i + m));
        if part == pat {
            assert(s@.subrange(i as int, i + m) == p@);
            return true;
        }
        i = i + 1;
    }
    false
}

/// Relies on `String::push`: the character is appended.
#[verifier::external_body]
pub(crate) fn push_char(s: &mut String, c: char)
    ensures
        final(s)@ == old(s)@.push(c),
{
    s.push(c);
}

/// Whether two texts are equal up to ASCII case.
pub fn text_eq_ignore_case(a: &str, b: &str) -> (r: bool)
    ensures
        r == eq_ignore_case(a@, b@),
{
    let la = lower_text(a);
    let lb = lower_text(b);
    la == lb
}

fn lower_ascii_char(c: char) -> (r: char)
    ensures
        r == lower_char(c),
{
    if 'A' <= c && c <= 'Z' {
        ((c as u8) + 32) as char
    } else {
        c
    }
}

/// The identifier form of a text (see `sanitized`).
pub fn sanitize(text: &str) -> (r: String)
    ensures
        r@ == sanitized(text@),
{
    let n = text.unicode_len();
    let mut out: Vec<char> = Vec::new();
    let mut last_dash = true;
    let mut i: usize = 0;
    while i < n
        invariant
            n == text@.len(),
            0 <= i <= n,
            (out@, last_dash) == sanitize_run(text@.subrange(0, i as int)),
        decreases n - i,
    {
        let c = lower_ascii_char(text.get_char(i));
        proof {
            let s = text@.subrange(0, i + 1);
            assert(s.drop_last() == text@.subrange(0, i as int));
            assert(s.last() == text@[i as int]);
        }
        if ('a' <= c && c <= 'z') || ('0' <= c && c <= '9') {
            out.push(c);
            last_dash = false;
        } else if (c == ' ' || c == '\t' || c == '\n' || c == '\r' || c == '\x0c' || c == '-' || c
            == '_') && !last_dash {
            out.push('-');
            last_dash = true;
        }
        i = i + 1;
    }
    proof {
        assert(text@.subrange(0, n as int) == text@);
    }
    while out.len() > 0 && out[out.len() - 1] == '-'
        invariant
            trim_dash_end(out@) == sanitized(text@),
        decreases out.len(),
    {
        out.pop();
    }
    let mut r = String::new();
    let mut j: usize = 0;
    while j < out.len()
        invariant
            0 <= j <= out@.len(),
            r@ == out@.subrange(0, j as int),
        decreases out.len() - j,
    {
        push_char(&mut r, out[j]);
        proof {
            assert(out@.subrange(0, j + 1) == out@.subrange(0, j as int).push(out@[j as int]));
        }
        j = j + 1;
    }
    proof {
        assert(out@.subrange(0, out@.len() as int) == out@);
    }
    r
}

} // verus!
