//! Hex scalars (`0x` or `0X` followed by 64 hex digits) and their rewriting
//! into the literal syntax of each target language.
use crate::key::{is_white_space, is_white_space_char, texts};
use vstd::prelude::*;

verus! {

pub open spec fn is_hex_digit(c: char) -> bool {
    ('0' <= c && c <= '9') || ('a' <= c && c <= 'f') || ('A' <= c && c <= 'F')
}

/// A hex scalar starts at position `i` of `s`: `0`, then `x` or `X`, then 64
/// hex digits.
pub open spec fn scalar_at(s: Seq<char>, i: int) -> bool {
    0 <= i && i + 66 <= s.len() && s[i] == '0' && (s[i + 1] == 'x' || s[i + 1] == 'X') && forall|
        j: int,
    |
        i + 2 <= j < i + 66 ==> is_hex_digit(#[trigger] s[j])
}

/// Separates the tokens of a value: white space, `,`, `[` and `]`.
pub open spec fn is_token_separator(c: char) -> bool {
    is_white_space(c) || c == ',' || c == '[' || c == ']'
}

/// A token (a maximal run of characters other than separators) starts at `i`.
pub open spec fn token_starts_at(s: Seq<char>, i: int) -> bool {
    0 <= i < s.len() && !is_token_separator(s[i]) && (i == 0 || is_token_separator(s[i - 1]))
}

/// The token starting at `i` is exactly one hex scalar.
pub open spec fn scalar_token_at(s: Seq<char>, i: int) -> bool {
    scalar_at(s, i) && (i + 66 == s.len() || is_token_separator(s[i + 66]))
}

/// Every token of `s` is exactly one hex scalar.
pub open spec fn tokens_are_scalars(s: Seq<char>) -> bool {
    forall|i: int| #[trigger] token_starts_at(s, i) ==> scalar_token_at(s, i)
}

/// No hex scalar starts anywhere in `s`.
pub open spec fn no_scalar(s: Seq<char>) -> bool {
    forall|i: int| !#[trigger] scalar_at(s, i)
}

/// The text that opens a `uint256` literal.
pub open spec fn uint256_open() -> Seq<char> {
    seq!['u', 'i', 'n', 't', '2', '5', '6', '(']
}

/// `uint256(` stands at position `i` of `s`.
pub open spec fn opens_literal(s: Seq<char>, i: int) -> bool {
    0 <= i && i + 8 <= s.len() && s[i] == 'u' && s[i + 1] == 'i' && s[i + 2] == 'n' && s[i + 3]
        == 't' && s[i + 4] == '2' && s[i + 5] == '5' && s[i + 6] == '6' && s[i + 7] == '('
}

/// A hex scalar already written as a `uint256` literal starts at `i`.
pub open spec fn wrapped_scalar_at(s: Seq<char>, i: int) -> bool {
    opens_literal(s, i) && scalar_at(s, i + 8)
}

/// `s` with each bare hex scalar wrapped as `uint256(0x...)`. The scan goes
/// from the left without overlap and steps over scalars that are already
/// wrapped, so they are left as they are.
pub open spec fn uint256_literals(s: Seq<char>) -> Seq<char>
    decreases s.len(),
{
    if s.len() == 0 {
        s
    } else if wrapped_scalar_at(s, 0) {
        s.subrange(0, 74) + uint256_literals(s.subrange(74, s.len() as int))
    } else if scalar_at(s, 0) {
        uint256_open() + s.subrange(0, 66) + seq![')'] + uint256_literals(
            s.subrange(66, s.len() as int),
        )
    } else {
        seq![s[0]] + uint256_literals(s.drop_first())
    }
}

/// `s` with each hex scalar, found scanning from the left without overlap,
/// replaced by its 64 digits in double quotes.
pub open spec fn quoted_scalars(s: Seq<char>) -> Seq<char>
    decreases s.len(),
{
    if s.len() == 0 {
        s
    } else if scalar_at(s, 0) {
        seq!['"'] + s.subrange(2, 66) + seq!['"'] + quoted_scalars(s.subrange(66, s.len() as int))
    } else {
        seq![s[0]] + quoted_scalars(s.drop_first())
    }
}

/// The hex scalars of `s`, found scanning from the left without overlap.
pub open spec fn scalar_tokens(s: Seq<char>) -> Seq<Seq<char>>
    decreases s.len(),
{
    if s.len() == 0 {
        Seq::empty()
    } else if scalar_at(s, 0) {
        seq![s.subrange(0, 66)] + scalar_tokens(s.subrange(66, s.len() as int))
    } else {
        scalar_tokens(s.drop_first())
    }
}

fn is_hex_char(c: char) -> (r: bool)
    ensures
        r == is_hex_digit(c),
{
    ('0' <= c && c <= '9') || ('a' <= c && c <= 'f') || ('A' <= c && c <= 'F')
}

fn is_token_separator_char(c: char) -> (r: bool)
    ensures
        r == is_token_separator(c),
{
    is_white_space_char(c) || c == ',' || c == '[' || c == ']'
}

/// Whether a hex scalar starts at position `i` of `s`, of length `n`.
fn scalar_starts_at(s: &str, n: usize, i: usize) -> (r: bool)
    requires
        n == s@.len(),
    ensures
        r == scalar_at(s@, i as int),
{
    if i > n || n - i < 66 {
        return false;
    }
    let c0 = s.get_char(i);
    let c1 = s.get_char(i + 1);
    if c0 != '0' || (c1 != 'x' && c1 != 'X') {
        return false;
    }
    let mut j: usize = i + 2;
    while j < i + 66
        invariant
            n == s@.len(),
            i + 66 <= n,
            i + 2 <= j <= i + 66,
            forall|k: int| i + 2 <= k < j ==> is_hex_digit(#[trigger] s@[k]),
        decreases i + 66 - j,
    {
        if !is_hex_char(s.get_char(j)) {
            return false;
        }
        j = j + 1;
    }
    true
}

/// Whether every token of `s` is exactly one hex scalar.
pub fn tokens_well_formed(s: &str) -> (r: bool)
    ensures
        r == tokens_are_scalars(s@),
{
    let n = s.unicode_len();
    let mut i: usize = 0;
    let mut after_separator = true;
    while i < n
        invariant
            n == s@.len(),
            i <= n,
            after_separator == (i == 0 || is_token_separator(s@[i - 1])),
            forall|k: int| 0 <= k < i && #[trigger] token_starts_at(s@, k) ==> scalar_token_at(s@, k),
        decreases n - i,
    {
        let separator = is_token_separator_char(s.get_char(i));
        if !separator && after_separator {
            assert(token_starts_at(s@, i as int));
            if !scalar_starts_at(s, n, i) {
                return false;
            }
            if i + 66 < n && !is_token_separator_char(s.get_char(i + 66)) {
                return false;
            }
        }
        after_separator = separator;
        i = i + 1;
    }
    true
}

/// The literal for one match of the `uint256` scan: a scalar that is already
/// wrapped stays as it is, a bare one is wrapped.
pub(crate) fn uint256_literal(m: &str) -> (r: String)
    ensures
        r@ == (if opens_literal(m@, 0) {
            m@
        } else {
            uint256_open() + m@ + seq![')']
        }),
{
    let open = "uint256(";
    proof {
        reveal_strlit("uint256(");
        reveal_strlit(")");
    }
    assert(open@ =~= uint256_open());
    let n = m.unicode_len();
    let mut wrapped = n >= 8;
    let mut j: usize = 0;
    while wrapped && j < 8
        invariant
            n == m@.len(),
            open@ == uint256_open(),
            j <= 8,
            wrapped ==> n >= 8 && forall|k: int| 0 <= k < j ==> m@[k] == uint256_open()[k],
            !wrapped ==> !opens_literal(m@, 0),
        decreases 8 - j,
    {
        if m.get_char(j) != open.get_char(j) {
            wrapped = false;
        }
        j = j + 1;
    }
    if wrapped {
        assert(opens_literal(m@, 0)) by {
            assert(forall|k: int| 0 <= k < 8 ==> m@[k] == uint256_open()[k]);
        }
        String::from_str(m)
    } else {
        let mut r = String::from_str(open);
        r.append(m);
        r.append(")");
        r
    }
}

/// Relies on `regex::Regex::replace_all`, which replaces each of the
/// successive non-overlapping leftmost-first matches of a pattern by what the
/// closure returns for it. The pattern `(?:uint256\()?0[xX][0-9a-fA-F]{64}`
/// matches at a position exactly when a wrapped or a bare hex scalar starts
/// there, the wrapped one (74 characters) being preferred.
#[verifier::external_body]
pub(crate) fn wrap_uint256(text: &str) -> (r: String)
    ensures
        r@ == uint256_literals(text@),
{
    let re = regex::Regex::new(r"(?:uint256\()?0[xX][0-9a-fA-F]{64}").unwrap();
    re.replace_all(text, |caps: &regex::Captures| uint256_literal(&caps[0])).into_owned()
}

/// Relies on `regex::Regex::replace_all`, which replaces the successive
/// non-overlapping leftmost-first matches of a pattern; the pattern
/// `0[xX][0-9a-fA-F]{64}` matches exactly the hex scalars, and `$v` in the
/// replacement stands for the 64 digits after the prefix.
#[verifier::external_body]
pub(crate) fn quote_scalars(text: &str) -> (r: String)
    ensures
        r@ == quoted_scalars(text@),
{
    let re = regex::Regex::new(r"0[xX](?P<v>[0-9a-fA-F]{64})").unwrap();
    re.replace_all(text, "\"$v\"").into_owned()
}

/// Relies on `regex::Regex::find_iter`, which yields the successive
/// non-overlapping leftmost-first matches of the pattern
/// `0[xX][0-9a-fA-F]{64}`, that is the hex scalars.
#[verifier::external_body]
pub(crate) fn find_scalars(text: &str) -> (r: Vec<String>)
    ensures
        texts(r@) == scalar_tokens(text@),
{
    let re = regex::Regex::new(r"0[xX][0-9a-fA-F]{64}").unwrap();
    re.find_iter(text).map(|m| m.as_str().to_string()).collect()
}

proof fn lemma_scalar_at_shift(a: Seq<char>, b: Seq<char>, i: int)
    requires
        i >= a.len(),
    ensures
        scalar_at(a + b, i) == scalar_at(b, i - a.len()),
{
    let k = i - a.len();
    if scalar_at(b, k) {
        assert forall|j: int| i + 2 <= j < i + 66 implies is_hex_digit(#[trigger] (a + b)[j]) by {
            assert((a + b)[j] == b[j - a.len()]);
        }
    }
    if scalar_at(a + b, i) {
        assert forall|j: int| k + 2 <= j < k + 66 implies is_hex_digit(#[trigger] b[j]) by {
            assert((a + b)[j + a.len()] == b[j]);
        }
    }
}

/// Where the first `k` characters of the quoted text hold no double quote,
/// they are the first `k` characters of the original text.
proof fn lemma_quoted_prefix(t: Seq<char>, k: int)
    requires
        0 <= k <= quoted_scalars(t).len(),
        forall|j: int| 0 <= j < k ==> quoted_scalars(t)[j] != '"',
    ensures
        k <= t.len(),
        quoted_scalars(t).subrange(0, k) == t.subrange(0, k),
    decreases t.len(),
{
    if k > 0 {
        if scalar_at(t, 0) {
            assert(quoted_scalars(t)[0] == '"');
        } else {
            let rest = t.drop_first();
            let q = quoted_scalars(rest);
            assert(quoted_scalars(t) == seq![t[0]] + q);
            assert forall|j: int| 0 <= j < k - 1 implies q[j] != '"' by {
                assert(quoted_scalars(t)[j + 1] == q[j]);
            }
            lemma_quoted_prefix(rest, k - 1);
            assert(quoted_scalars(t).subrange(0, k) =~= t.subrange(0, k)) by {
                assert forall|j: int| 0 <= j < k implies quoted_scalars(t)[j] == t[j] by {
                    if j > 0 {
                        assert(q.subrange(0, k - 1)[j - 1] == rest.subrange(0, k - 1)[j - 1]);
                    }
                }
            }
        }
    }
}

/// The quoted text holds no hex scalar.
proof fn lemma_quoted_has_no_scalar(t: Seq<char>)
    ensures
        no_scalar(quoted_scalars(t)),
    decreases t.len(),
{
    let q = quoted_scalars(t);
    if t.len() > 0 {
        if scalar_at(t, 0) {
            let rest = t.subrange(66, t.len() as int);
            let head = seq!['"'] + t.subrange(2, 66) + seq!['"'];
            lemma_quoted_has_no_scalar(rest);
            assert(q == head + quoted_scalars(rest));
            assert forall|i: int| !#[trigger] scalar_at(q, i) by {
                if 0 <= i < 66 {
                    if i == 0 || i == 65 {
                        assert(q[i] == '"');
                    } else if i == 64 {
                        assert(q[i + 1] == '"');
                    } else {
                        assert(q[i + 1] == t[i + 2]);
                        assert(is_hex_digit(t[i + 2]));
                    }
                } else if i >= 66 {
                    lemma_scalar_at_shift(head, quoted_scalars(rest), i);
                    assert(!scalar_at(quoted_scalars(rest), i - 66));
                }
            }
        } else {
            let rest = t.drop_first();
            let qr = quoted_scalars(rest);
            let head = seq![t[0]];
            lemma_quoted_has_no_scalar(rest);
            assert(q == head + qr);
            assert forall|i: int| !#[trigger] scalar_at(q, i) by {
                if i >= 1 {
                    lemma_scalar_at_shift(head, qr, i);
                    assert(!scalar_at(qr, i - 1));
                } else if i == 0 && scalar_at(q, 0) {
                    assert forall|j: int| 0 <= j < 65 implies qr[j] != '"' by {
                        assert(qr[j] == q[j + 1]);
                        if j >= 1 {
                            assert(is_hex_digit(q[j + 1]));
                        }
                    }
                    lemma_quoted_prefix(rest, 65);
                    assert forall|j: int| 2 <= j < 66 implies is_hex_digit(#[trigger] t[j]) by {
                        assert(qr.subrange(0, 65)[j - 1] == rest.subrange(0, 65)[j - 1]);
                        assert(is_hex_digit(q[j]));
                    }
                    assert(qr.subrange(0, 65)[0] == rest.subrange(0, 65)[0]);
                    assert(scalar_at(t, 0));
                }
            }
        }
    }
}

/// A text without hex scalars is left as it is.
proof fn lemma_quoted_fixed(s: Seq<char>)
    requires
        no_scalar(s),
    ensures
        quoted_scalars(s) == s,
    decreases s.len(),
{
    if s.len() > 0 {
        let rest = s.drop_first();
        assert(!scalar_at(s, 0));
        assert(s =~= seq![s[0]] + rest);
        assert forall|i: int| !#[trigger] scalar_at(rest, i) by {
            if i >= 0 {
                lemma_scalar_at_shift(seq![s[0]], rest, i + 1);
                assert(!scalar_at(s, i + 1));
            }
        }
        lemma_quoted_fixed(rest);
        assert(quoted_scalars(s) =~= s);
    }
}

/// Texts that agree on their first `m` characters agree on whether a bare
/// or a wrapped scalar starts them.
proof fn lemma_same_start(x: Seq<char>, y: Seq<char>, m: int)
    requires
        m <= x.len(),
        m <= y.len(),
        forall|i: int| 0 <= i < m ==> x[i] == y[i],
    ensures
        m >= 66 ==> (scalar_at(x, 0) <==> scalar_at(y, 0)),
        m >= 74 ==> (wrapped_scalar_at(x, 0) <==> wrapped_scalar_at(y, 0)),
{
    if m >= 66 {
        assert(forall|j: int| 2 <= j < 66 ==> x[j] == y[j]);
        if scalar_at(x, 0) {
            assert forall|j: int| 2 <= j < 66 implies is_hex_digit(#[trigger] y[j]) by {
                assert(x[j] == y[j]);
            }
        }
        if scalar_at(y, 0) {
            assert forall|j: int| 2 <= j < 66 implies is_hex_digit(#[trigger] x[j]) by {
                assert(x[j] == y[j]);
            }
        }
    }
    if m >= 74 {
        if scalar_at(x, 8) {
            assert forall|j: int| 10 <= j < 74 implies is_hex_digit(#[trigger] y[j]) by {
                assert(x[j] == y[j]);
            }
        }
        if scalar_at(y, 8) {
            assert forall|j: int| 10 <= j < 74 implies is_hex_digit(#[trigger] x[j]) by {
                assert(x[j] == y[j]);
            }
        }
    }
}

/// Where the first `k` characters of the rewritten text hold no `u`, they
/// are the first `k` characters of the original text.
proof fn lemma_uint256_prefix(t: Seq<char>, k: int)
    requires
        0 <= k <= uint256_literals(t).len(),
        forall|j: int| 0 <= j < k ==> uint256_literals(t)[j] != 'u',
    ensures
        k <= t.len(),
        forall|j: int| 0 <= j < k ==> uint256_literals(t)[j] == t[j],
    decreases t.len(),
{
    if k > 0 {
        let w = uint256_literals(t);
        if wrapped_scalar_at(t, 0) {
            assert(w[0] == t[0]);
        } else if scalar_at(t, 0) {
            assert(w[0] == 'u');
        } else {
            let rest = t.drop_first();
            let q = uint256_literals(rest);
            assert(w == seq![t[0]] + q);
            assert forall|j: int| 0 <= j < k - 1 implies q[j] != 'u' by {
                assert(w[j + 1] == q[j]);
            }
            lemma_uint256_prefix(rest, k - 1);
            assert forall|j: int| 0 <= j < k implies w[j] == t[j] by {
                if j > 0 {
                    assert(w[j] == q[j - 1]);
                    assert(q[j - 1] == rest[j - 1]);
                }
            }
        }
    }
}

/// The `uint256` rewrite is idempotent: scalars it has wrapped are stepped
/// over by a second pass, so that pass changes nothing.
pub proof fn lemma_uint256_idempotent(s: Seq<char>)
    ensures
        uint256_literals(uint256_literals(s)) == uint256_literals(s),
    decreases s.len(),
{
    let w = uint256_literals(s);
    if s.len() == 0 {
        return;
    }
    if wrapped_scalar_at(s, 0) {
        let r = s.subrange(74, s.len() as int);
        lemma_uint256_idempotent(r);
        assert(w == s.subrange(0, 74) + uint256_literals(r));
        lemma_same_start(w, s, 74);
        assert(w.subrange(0, 74) =~= s.subrange(0, 74));
        assert(w.subrange(74, w.len() as int) =~= uint256_literals(r));
    } else if scalar_at(s, 0) {
        let r = s.subrange(66, s.len() as int);
        let y = uint256_open() + s.subrange(0, 66);
        let z = seq![')'] + uint256_literals(r);
        lemma_uint256_idempotent(r);
        assert(w == y + z);
        lemma_same_start(s.subrange(0, 66), s, 66);
        lemma_scalar_at_shift(uint256_open(), s.subrange(0, 66), 8);
        assert(wrapped_scalar_at(y, 0));
        lemma_same_start(w, y, 74);
        assert(w.subrange(0, 74) =~= y);
        assert(w.subrange(74, w.len() as int) =~= z);
        assert(z.drop_first() =~= uint256_literals(r));
        assert(uint256_literals(z) == seq![')'] + uint256_literals(uint256_literals(r)));
        assert(uint256_literals(w) =~= w);
    } else {
        let r = s.drop_first();
        let q = uint256_literals(r);
        lemma_uint256_idempotent(r);
        assert(w == seq![s[0]] + q);
        if scalar_at(w, 0) {
            assert forall|j: int| 0 <= j < 65 implies q[j] != 'u' by {
                assert(q[j] == w[j + 1]);
                if j >= 1 {
                    assert(is_hex_digit(w[j + 1]));
                }
            }
            lemma_uint256_prefix(r, 65);
            assert forall|j: int| 0 <= j < 66 implies w[j] == s[j] by {
                if j > 0 {
                    assert(w[j] == q[j - 1]);
                    assert(q[j - 1] == r[j - 1]);
                }
            }
            lemma_same_start(w, s, 66);
        }
        if wrapped_scalar_at(w, 0) {
            assert forall|j: int| 0 <= j < 73 implies q[j] != 'u' by {
                assert(q[j] == w[j + 1]);
                if j >= 9 {
                    assert(is_hex_digit(w[j + 1]));
                }
            }
            lemma_uint256_prefix(r, 73);
            assert forall|j: int| 0 <= j < 74 implies w[j] == s[j] by {
                if j > 0 {
                    assert(w[j] == q[j - 1]);
                    assert(q[j - 1] == r[j - 1]);
                }
            }
            lemma_same_start(w, s, 74);
        }
        assert(w.drop_first() =~= q);
        assert(uint256_literals(w) =~= w);
    }
}

/// A character that can stand inside a bare or wrapped scalar, after its
/// first character.
pub open spec fn inside_scalar(c: char) -> bool {
    is_hex_digit(c) || c == 'x' || c == 'X' || c == 'i' || c == 'n' || c == 't' || c == '('
}

/// The `uint256` rewrite works on the two sides of a boundary apart when the
/// text after it starts with a character that no scalar holds inside.
pub proof fn lemma_uint256_split(a: Seq<char>, b: Seq<char>)
    requires
        b.len() > 0,
        !inside_scalar(b[0]),
    ensures
        uint256_literals(a + b) == uint256_literals(a) + uint256_literals(b),
    decreases a.len(),
{
    let s = a + b;
    let n = a.len() as int;
    if n == 0 {
        assert(s =~= b);
        return;
    }
    if wrapped_scalar_at(s, 0) {
        if n < 74 {
            assert(s[n] == b[0]);
            if n >= 10 {
                assert(is_hex_digit(s[n]));
            }
            assert(false);
        }
        assert(forall|i: int| 0 <= i < 74 ==> s[i] == a[i]);
        lemma_same_start(s, a, 74);
        lemma_uint256_split(a.subrange(74, n), b);
        assert(s.subrange(74, s.len() as int) =~= a.subrange(74, n) + b);
        assert(s.subrange(0, 74) =~= a.subrange(0, 74));
        assert(uint256_literals(s) =~= uint256_literals(a) + uint256_literals(b));
    } else if scalar_at(s, 0) {
        if n < 66 {
            assert(s[n] == b[0]);
            if n >= 2 {
                assert(is_hex_digit(s[n]));
            }
            assert(false);
        }
        assert(forall|i: int| 0 <= i < 66 ==> s[i] == a[i]);
        lemma_same_start(s, a, 66);
        if n >= 74 {
            assert(forall|i: int| 0 <= i < 74 ==> s[i] == a[i]);
            lemma_same_start(s, a, 74);
        }
        lemma_uint256_split(a.subrange(66, n), b);
        assert(s.subrange(66, s.len() as int) =~= a.subrange(66, n) + b);
        assert(s.subrange(0, 66) =~= a.subrange(0, 66));
        assert(uint256_literals(s) =~= uint256_literals(a) + uint256_literals(b));
    } else {
        if n >= 66 {
            assert(forall|i: int| 0 <= i < 66 ==> s[i] == a[i]);
            lemma_same_start(s, a, 66);
        }
        if n >= 74 {
            assert(forall|i: int| 0 <= i < 74 ==> s[i] == a[i]);
            lemma_same_start(s, a, 74);
        }
        lemma_uint256_split(a.drop_first(), b);
        assert(s.drop_first() =~= a.drop_first() + b);
        assert(uint256_literals(s) =~= uint256_literals(a) + uint256_literals(b));
    }
}

/// No scalar starts in a text without `u`, `x` and `X` that does not end in
/// `0`: the `uint256` rewrite passes over it unchanged.
pub proof fn lemma_uint256_skip(a: Seq<char>, b: Seq<char>)
    requires
        forall|i: int| 0 <= i < a.len() ==> a[i] != 'u' && a[i] != 'x' && a[i] != 'X',
        a.len() > 0 ==> a.last() != '0',
    ensures
        uint256_literals(a + b) == a + uint256_literals(b),
    decreases a.len(),
{
    let s = a + b;
    if a.len() == 0 {
        assert(s =~= b);
        assert(a + uint256_literals(b) =~= uint256_literals(b));
        return;
    }
    assert(s[0] == a[0]);
    if a.len() >= 2 {
        assert(s[1] == a[1]);
    }
    assert(!wrapped_scalar_at(s, 0));
    assert(!scalar_at(s, 0));
    let r = a.drop_first();
    if r.len() > 0 {
        assert(r.last() == a.last());
    }
    lemma_uint256_skip(r, b);
    assert(s.drop_first() =~= r + b);
    assert(uint256_literals(s) =~= a + uint256_literals(b));
}

/// A character that can stand inside a hex scalar, after its first character.
pub open spec fn inside_bare_scalar(c: char) -> bool {
    is_hex_digit(c) || c == 'x' || c == 'X'
}

/// Quoting works on the two sides of a boundary apart when the text after it
/// starts with a character that no scalar holds inside.
pub proof fn lemma_quoted_split(a: Seq<char>, b: Seq<char>)
    requires
        b.len() > 0,
        !inside_bare_scalar(b[0]),
    ensures
        quoted_scalars(a + b) == quoted_scalars(a) + quoted_scalars(b),
    decreases a.len(),
{
    let s = a + b;
    let n = a.len() as int;
    if n == 0 {
        assert(s =~= b);
        return;
    }
    if scalar_at(s, 0) {
        if n < 66 {
            assert(s[n] == b[0]);
            if n >= 2 {
                assert(is_hex_digit(s[n]));
            }
            assert(false);
        }
        assert(forall|i: int| 0 <= i < 66 ==> s[i] == a[i]);
        lemma_same_start(s, a, 66);
        lemma_quoted_split(a.subrange(66, n), b);
        assert(s.subrange(66, s.len() as int) =~= a.subrange(66, n) + b);
        assert(s.subrange(2, 66) =~= a.subrange(2, 66));
        assert(quoted_scalars(s) =~= quoted_scalars(a) + quoted_scalars(b));
    } else {
        if n >= 66 {
            assert(forall|i: int| 0 <= i < 66 ==> s[i] == a[i]);
            lemma_same_start(s, a, 66);
        }
        lemma_quoted_split(a.drop_first(), b);
        assert(s.drop_first() =~= a.drop_first() + b);
        assert(quoted_scalars(s) =~= quoted_scalars(a) + quoted_scalars(b));
    }
}

/// Quoting works on the two sides of a boundary apart when the text before
/// it ends with a character that no scalar holds.
pub proof fn lemma_quoted_split_after(a: Seq<char>, b: Seq<char>)
    requires
        a.len() > 0,
        !inside_bare_scalar(a.last()),
        a.last() != '0',
    ensures
        quoted_scalars(a + b) == quoted_scalars(a) + quoted_scalars(b),
    decreases a.len(),
{
    let s = a + b;
    let n = a.len() as int;
    if scalar_at(s, 0) {
        if n <= 66 {
            assert(s[n - 1] == a.last());
            if n >= 3 {
                assert(is_hex_digit(s[n - 1]));
            }
            assert(false);
        }
        assert(forall|i: int| 0 <= i < 66 ==> s[i] == a[i]);
        lemma_same_start(s, a, 66);
        let r = a.subrange(66, n);
        assert(r.last() == a.last());
        lemma_quoted_split_after(r, b);
        assert(s.subrange(66, s.len() as int) =~= r + b);
        assert(s.subrange(2, 66) =~= a.subrange(2, 66));
        assert(quoted_scalars(s) =~= quoted_scalars(a) + quoted_scalars(b));
    } else {
        if n >= 66 {
            assert(forall|i: int| 0 <= i < 66 ==> s[i] == a[i]);
            lemma_same_start(s, a, 66);
        }
        if n == 1 {
            assert(!scalar_at(a, 0));
            assert(s.drop_first() =~= b);
            assert(a.drop_first() =~= Seq::<char>::empty());
            assert(quoted_scalars(s) =~= quoted_scalars(a) + quoted_scalars(b));
        } else {
            let r = a.drop_first();
            assert(r.last() == a.last());
            lemma_quoted_split_after(r, b);
            assert(s.drop_first() =~= r + b);
            assert(quoted_scalars(s) =~= quoted_scalars(a) + quoted_scalars(b));
        }
    }
}

/// No scalar starts in a text without `x` and `X` that does not end in `0`:
/// quoting passes over it unchanged.
pub proof fn lemma_quoted_skip(a: Seq<char>, b: Seq<char>)
    requires
        forall|i: int| 0 <= i < a.len() ==> a[i] != 'x' && a[i] != 'X',
        a.len() > 0 ==> a.last() != '0',
    ensures
        quoted_scalars(a + b) == a + quoted_scalars(b),
    decreases a.len(),
{
    let s = a + b;
    if a.len() == 0 {
        assert(s =~= b);
        assert(a + quoted_scalars(b) =~= quoted_scalars(b));
        return;
    }
    assert(s[0] == a[0]);
    if a.len() >= 2 {
        assert(s[1] == a[1]);
    }
    assert(!scalar_at(s, 0));
    let r = a.drop_first();
    if r.len() > 0 {
        assert(r.last() == a.last());
    }
    lemma_quoted_skip(r, b);
    assert(s.drop_first() =~= r + b);
    assert(quoted_scalars(s) =~= a + quoted_scalars(b));
}

/// The hex scalars found in a text are each one whole scalar.
pub proof fn lemma_scalar_tokens_are_scalars(s: Seq<char>)
    ensures
        forall|i: int|
            0 <= i < scalar_tokens(s).len() ==> #[trigger] scalar_tokens(s)[i].len() == 66
                && scalar_at(scalar_tokens(s)[i], 0),
    decreases s.len(),
{
    if s.len() > 0 {
        if scalar_at(s, 0) {
            let r = s.subrange(66, s.len() as int);
            lemma_scalar_tokens_are_scalars(r);
            let t = s.subrange(0, 66);
            assert(forall|j: int| 0 <= j < 66 ==> t[j] == s[j]);
            lemma_same_start(t, s, 66);
            assert(scalar_tokens(s) == seq![t] + scalar_tokens(r));
            assert forall|i: int| 0 <= i < scalar_tokens(s).len() implies #[trigger] scalar_tokens(
                s,
            )[i].len() == 66 && scalar_at(scalar_tokens(s)[i], 0) by {
                if i > 0 {
                    assert(scalar_tokens(s)[i] == scalar_tokens(r)[i - 1]);
                } else {
                    assert(scalar_tokens(s)[0] == t);
                }
            }
        } else {
            lemma_scalar_tokens_are_scalars(s.drop_first());
            assert(scalar_tokens(s) == scalar_tokens(s.drop_first()));
        }
    }
}

/// A whole scalar is quoted to its digits in double quotes.
pub proof fn lemma_quoted_scalar(t: Seq<char>)
    requires
        t.len() == 66,
        scalar_at(t, 0),
    ensures
        quoted_scalars(t) == seq!['"'] + t.subrange(2, 66) + seq!['"'],
{
    assert(t.subrange(66, 66) =~= Seq::<char>::empty());
    assert(quoted_scalars(Seq::<char>::empty()) =~= Seq::<char>::empty());
    assert(quoted_scalars(t) =~= seq!['"'] + t.subrange(2, 66) + seq!['"']);
}

/// Quoting hex scalars is idempotent: the quoted form `"..."` of a scalar
/// cannot be matched again, so a second pass changes nothing.
pub proof fn lemma_quoting_idempotent(s: Seq<char>)
    ensures
        quoted_scalars(quoted_scalars(s)) == quoted_scalars(s),
{
    lemma_quoted_has_no_scalar(s);
    lemma_quoted_fixed(quoted_scalars(s));
}

} // verus!
