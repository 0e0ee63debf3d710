//! Reading a verification key document: seven header lines, a count line and
//! that many commitment point lines, each of the form `name = value`.
use vstd::prelude::*;
use vstd::string::*;

verus! {

/// Why a key document could not be read or rendered.
#[derive(Debug, Clone, Copy, PartialEq, Eq, Structural)]
pub enum KeyError {
    /// A line does not split into exactly two `=`-separated parts.
    MalformedKeyLine,
    /// The document ends before all required lines were read.
    UnexpectedEndOfInput,
    /// The count line's value is not a non-negative integer (or is zero where
    /// at least one commitment point is needed).
    InvalidIcCount,
    /// A value holds a token that is not `0x` or `0X` followed by exactly 64
    /// hex digits, or not as many such scalars as its point has coordinates.
    MalformedScalar,
}

/// Number of fixed header lines (the group elements a, b, c, gamma,
/// gamma_beta_1, gamma_beta_2, z).
pub const HEADER_LINES: usize = 7;

/// Largest commitment count accepted (the largest `i32`).
pub const MAX_IC_COUNT: u64 = 0x7fff_ffff;

/// Unicode `White_Space` characters, the ones `str::trim` removes.
pub open spec fn is_white_space(c: char) -> bool {
    let u = c as u32;
    (0x9 <= u && u <= 0xd) || u == 0x20 || u == 0x85 || u == 0xa0 || u == 0x1680 || (0x2000
        <= u && u <= 0x200a) || u == 0x2028 || u == 0x2029 || u == 0x202f || u == 0x205f || u
        == 0x3000
}

/// `s` without its leading white space.
pub open spec fn trim_start(s: Seq<char>) -> Seq<char>
    decreases s.len(),
{
    if s.len() > 0 && is_white_space(s[0]) {
        trim_start(s.drop_first())
    } else {
        s
    }
}

/// `s` without its trailing white space.
pub open spec fn trim_end(s: Seq<char>) -> Seq<char>
    decreases s.len(),
{
    if s.len() > 0 && is_white_space(s.last()) {
        trim_end(s.drop_last())
    } else {
        s
    }
}

/// `s` without leading and trailing white space.
pub open spec fn trim(s: Seq<char>) -> Seq<char> {
    trim_end(trim_start(s))
}

/// `p` is the one position of `=` in `s`.
pub open spec fn sole_separator_at(s: Seq<char>, p: int) -> bool {
    0 <= p < s.len() && s[p] == '=' && forall|i: int| 0 <= i < s.len() && i != p ==> s[i] != '='
}

/// The trimmed value of a `name = value` line, if the line holds exactly one `=`.
pub open spec fn line_value(s: Seq<char>) -> Option<Seq<char>> {
    if exists|p: int| sole_separator_at(s, p) {
        let p = choose|p: int| sole_separator_at(s, p);
        Some(trim(s.subrange(p + 1, s.len() as int)))
    } else {
        None
    }
}

/// Value of an ASCII decimal digit.
pub open spec fn digit_value(c: char) -> nat {
    (c as u32 - '0' as u32) as nat
}

pub open spec fn is_digit(c: char) -> bool {
    '0' <= c && c <= '9'
}

/// The number written by the digits `s`.
pub open spec fn digits_value(s: Seq<char>) -> nat
    decreases s.len(),
{
    if s.len() == 0 {
        0
    } else {
        digits_value(s.drop_last()) * 10 + digit_value(s.last())
    }
}

/// A count written with a leading `-`.
pub open spec fn count_negative(s: Seq<char>) -> bool {
    s.len() > 0 && s[0] == '-'
}

/// The digits of a count: all of `s`, or all but a leading sign.
pub open spec fn count_digits(s: Seq<char>) -> Seq<char> {
    if s.len() > 0 && (s[0] == '+' || s[0] == '-') {
        s.drop_first()
    } else {
        s
    }
}

/// The count written by `s`: one or more decimal digits, optionally after a
/// sign, whose value is at most `MAX_IC_COUNT`; after `-` only zero is a
/// count.
pub open spec fn parse_count(s: Seq<char>) -> Option<nat> {
    let d = count_digits(s);
    if d.len() > 0 && (forall|i: int| 0 <= i < d.len() ==> is_digit(#[trigger] d[i]))
        && digits_value(d) <= MAX_IC_COUNT && (count_negative(s) ==> digits_value(d) == 0) {
        Some(digits_value(d))
    } else {
        None
    }
}

pub fn is_white_space_char(c: char) -> (r: bool)
    ensures
        r == is_white_space(c),
{
    let u = c as u32;
    (0x9 <= u && u <= 0xd) || u == 0x20 || u == 0x85 || u == 0xa0 || u == 0x1680 || (0x2000
        <= u && u <= 0x200a) || u == 0x2028 || u == 0x2029 || u == 0x202f || u == 0x205f || u
        == 0x3000
}

proof fn lemma_trim_start_step(s: Seq<char>, i: int)
    requires
        0 <= i < s.len(),
        is_white_space(s[i]),
    ensures
        trim_start(s.subrange(i, s.len() as int)) == trim_start(s.subrange(i + 1, s.len() as int)),
{
    assert(s.subrange(i, s.len() as int).drop_first() =~= s.subrange(i + 1, s.len() as int));
}

proof fn lemma_trim_end_step(s: Seq<char>, j: int)
    requires
        0 < j <= s.len(),
        is_white_space(s[j - 1]),
    ensures
        trim_end(s.subrange(0, j)) == trim_end(s.subrange(0, j - 1)),
{
    assert(s.subrange(0, j).drop_last() =~= s.subrange(0, j - 1));
}

/// `s` with leading and trailing white space removed.
pub fn trim_text(s: &str) -> (r: &str)
    ensures
        r@ == trim(s@),
{
    let n = s.unicode_len();
    let mut i: usize = 0;
    assert(s@.subrange(0, n as int) =~= s@);
    while i < n && is_white_space_char(s.get_char(i))
        invariant
            n == s@.len(),
            i <= n,
            trim_start(s@) == trim_start(s@.subrange(i as int, n as int)),
        decreases n - i,
    {
        proof {
            lemma_trim_start_step(s@, i as int);
        }
        i = i + 1;
    }
    let t = s.substring_char(i, n);
    assert(trim_start(s@) == t@) by {
        if i < n {
            assert(!is_white_space(s@[i as int]));
        }
    }
    let m = t.unicode_len();
    let mut j: usize = m;
    assert(t@.subrange(0, m as int) =~= t@);
    while j > 0 && is_white_space_char(t.get_char(j - 1))
        invariant
            m == t@.len(),
            j <= m,
            trim_end(t@) == trim_end(t@.subrange(0, j as int)),
        decreases j,
    {
        proof {
            lemma_trim_end_step(t@, j as int);
        }
        j = j - 1;
    }
    let r = t.substring_char(0, j);
    assert(t@.subrange(0, m as int) =~= t@);
    r
}

/// The value of a `name = value` line: the trimmed text after the one `=`, or
/// `None` when the line holds no `=` or more than one.
pub fn split_key_line(line: &str) -> (r: Option<&str>)
    ensures
        r matches Some(v) ==> line_value(line@) == Some(v@),
        r is None ==> line_value(line@) is None,
{
    let n = line.unicode_len();
    let mut i: usize = 0;
    while i < n && line.get_char(i) != '='
        invariant
            n == line@.len(),
            i <= n,
            forall|k: int| 0 <= k < i ==> line@[k] != '=',
        decreases n - i,
    {
        i = i + 1;
    }
    if i == n {
        assert(!exists|p: int| sole_separator_at(line@, p));
        return None;
    }
    let p = i;
    i = i + 1;
    while i < n && line.get_char(i) != '='
        invariant
            n == line@.len(),
            p < i <= n,
            line@[p as int] == '=',
            forall|k: int| 0 <= k < i && k != p ==> line@[k] != '=',
        decreases n - i,
    {
        i = i + 1;
    }
    if i < n {
        assert(!exists|q: int| sole_separator_at(line@, q)) by {
            if exists|q: int| sole_separator_at(line@, q) {
                let q = choose|q: int| sole_separator_at(line@, q);
                assert(line@[p as int] == '=' && line@[i as int] == '=');
            }
        }
        return None;
    }
    assert(sole_separator_at(line@, p as int));
    assert(line_value(line@) == Some(trim(line@.subrange(p + 1, n as int)))) by {
        let q = choose|q: int| sole_separator_at(line@, q);
        if q != p as int {
            assert(line@[p as int] == '=');
        }
    }
    let rest = line.substring_char(p + 1, n);
    Some(trim_text(rest))
}

proof fn lemma_digits_value_grows(s: Seq<char>, i: int, j: int)
    requires
        0 <= i <= j <= s.len(),
    ensures
        digits_value(s.subrange(0, i)) <= digits_value(s.subrange(0, j)),
    decreases j - i,
{
    if i < j {
        lemma_digits_value_grows(s, i, j - 1);
        assert(s.subrange(0, j).drop_last() =~= s.subrange(0, j - 1));
    }
}

/// Reads a count: decimal digits, optionally after a sign, at most
/// `MAX_IC_COUNT`, and zero after `-`.
pub fn parse_count_text(s: &str) -> (r: Option<usize>)
    ensures
        r matches Some(n) ==> parse_count(s@) == Some(n as nat),
        r is None ==> parse_count(s@) is None,
{
    let n = s.unicode_len();
    let first = if n > 0 {
        s.get_char(0)
    } else {
        ' '
    };
    let negative = n > 0 && first == '-';
    let start: usize = if n > 0 && (first == '+' || first == '-') {
        1
    } else {
        0
    };
    let d = s.substring_char(start, n);
    assert(d@ =~= count_digits(s@));
    let m = n - start;
    if m == 0 {
        return None;
    }
    let mut v: u64 = 0;
    let mut i: usize = 0;
    while i < m
        invariant
            m == d@.len(),
            d@ == count_digits(s@),
            i <= m,
            v == digits_value(d@.subrange(0, i as int)),
            v <= MAX_IC_COUNT,
            forall|k: int| 0 <= k < i ==> is_digit(#[trigger] d@[k]),
        decreases m - i,
    {
        let c = d.get_char(i);
        if c < '0' || c > '9' {
            let ghost cd = count_digits(s@);
            assert(!is_digit(cd[i as int]));
            assert(!(forall|k: int| 0 <= k < cd.len() ==> is_digit(#[trigger] cd[k])));
            return None;
        }
        assert(d@.subrange(0, i + 1).drop_last() =~= d@.subrange(0, i as int));
        assert(digits_value(d@.subrange(0, i + 1)) == digits_value(d@.subrange(0, i as int)) * 10
            + digit_value(c));
        v = v * 10 + (c as u64 - '0' as u64);
        i = i + 1;
        if v > MAX_IC_COUNT {
            proof {
                lemma_digits_value_grows(d@, i as int, m as int);
                assert(d@.subrange(0, m as int) =~= d@);
                assert(digits_value(count_digits(s@)) > MAX_IC_COUNT);
            }
            return None;
        }
    }
    assert(d@.subrange(0, m as int) =~= d@);
    if negative && v != 0 {
        return None;
    }
    Some(v as usize)
}

/// The values of a verification key document, as text.
pub struct KeyDocument {
    /// The seven header values, in document order.
    pub header: Vec<String>,
    /// The commitment point values, in document order.
    pub ic: Vec<String>,
}

/// The values of a key document as character sequences.
pub struct KeyModel {
    pub header: Seq<Seq<char>>,
    pub ic: Seq<Seq<char>>,
}

/// The texts of a sequence of strings.
pub open spec fn texts(v: Seq<String>) -> Seq<Seq<char>> {
    v.map_values(|s: String| s@)
}

impl View for KeyDocument {
    type V = KeyModel;

    open spec fn view(&self) -> KeyModel {
        KeyModel { header: texts(self.header@), ic: texts(self.ic@) }
    }
}

/// The error met first when reading lines `0 .. hi`: a missing line is
/// `UnexpectedEndOfInput`, a line without exactly one `=` is `MalformedKeyLine`.
pub open spec fn lines_error(lines: Seq<Seq<char>>, hi: nat) -> Option<KeyError>
    decreases hi,
{
    if hi == 0 {
        None
    } else {
        match lines_error(lines, (hi - 1) as nat) {
            Some(e) => Some(e),
            None => if hi - 1 >= lines.len() {
                Some(KeyError::UnexpectedEndOfInput)
            } else if line_value(lines[hi - 1]) is None {
                Some(KeyError::MalformedKeyLine)
            } else {
                None
            },
        }
    }
}

/// The values of the `n` lines starting at line `lo`.
pub open spec fn line_values(lines: Seq<Seq<char>>, lo: int, n: nat) -> Seq<Seq<char>> {
    Seq::new(n, |i: int| line_value(lines[lo + i]).unwrap())
}

/// What a key document of `lines` holds: seven header lines, a count line
/// holding `n`, and `n` commitment point lines; lines after those are ignored.
pub open spec fn parse_key(lines: Seq<Seq<char>>) -> Result<KeyModel, KeyError> {
    match lines_error(lines, (HEADER_LINES + 1) as nat) {
        Some(e) => Err(e),
        None => match parse_count(line_value(lines[HEADER_LINES as int]).unwrap()) {
            None => Err(KeyError::InvalidIcCount),
            Some(n) => match lines_error(lines, (HEADER_LINES + 1 + n) as nat) {
                Some(e) => Err(e),
                None => Ok(
                    KeyModel {
                        header: line_values(lines, 0, HEADER_LINES as nat),
                        ic: line_values(lines, HEADER_LINES + 1, n),
                    },
                ),
            },
        },
    }
}

/// Reads the value of line `k`, given that the lines before it are well formed.
fn read_value(lines: &Vec<String>, k: usize) -> (r: Result<String, KeyError>)
    requires
        lines_error(texts(lines@), k as nat) is None,
    ensures
        match r {
            Ok(v) => lines_error(texts(lines@), (k + 1) as nat) is None && v@ == line_value(
                texts(lines@)[k as int],
            ).unwrap(),
            Err(e) => lines_error(texts(lines@), (k + 1) as nat) == Some(e),
        },
{
    if k >= lines.len() {
        return Err(KeyError::UnexpectedEndOfInput);
    }
    assert(texts(lines@)[k as int] == lines@[k as int]@);
    match split_key_line(lines[k].as_str()) {
        None => Err(KeyError::MalformedKeyLine),
        Some(v) => Ok(String::from_str(v)),
    }
}

proof fn lemma_lines_error_stays(lines: Seq<Seq<char>>, lo: nat, hi: nat)
    requires
        lo <= hi,
        lines_error(lines, lo) is Some,
    ensures
        lines_error(lines, hi) == lines_error(lines, lo),
    decreases hi - lo,
{
    if lo < hi {
        lemma_lines_error_stays(lines, lo, (hi - 1) as nat);
    }
}

/// Reads `count` line values starting at line `lo` into `out`.
fn read_values(lines: &Vec<String>, lo: usize, count: usize) -> (r: Result<Vec<String>, KeyError>)
    requires
        lines_error(texts(lines@), lo as nat) is None,
        lo + count <= usize::MAX,
    ensures
        match r {
            Ok(v) => lines_error(texts(lines@), (lo + count) as nat) is None && texts(v@)
                == line_values(texts(lines@), lo as int, count as nat),
            Err(e) => lines_error(texts(lines@), (lo + count) as nat) == Some(e),
        },
{
    let ghost ls = texts(lines@);
    let mut out: Vec<String> = Vec::new();
    let mut i: usize = 0;
    while i < count
        invariant
            ls == texts(lines@),
            lo + count <= usize::MAX,
            i <= count,
            out@.len() == i,
            lines_error(ls, (lo + i) as nat) is None,
            texts(out@) == line_values(ls, lo as int, i as nat),
        decreases count - i,
    {
        match read_value(lines, lo + i) {
            Err(e) => {
                proof {
                    lemma_lines_error_stays(ls, (lo + i + 1) as nat, (lo + count) as nat);
                }
                return Err(e);
            },
            Ok(v) => {
                let ghost before = out@;
                out.push(v);
                assert forall|j: int| 0 <= j < i + 1 implies texts(out@)[j] == line_values(
                    ls,
                    lo as int,
                    (i + 1) as nat,
                )[j] by {
                    if j < i {
                        assert(texts(out@)[j] == texts(before)[j]);
                    }
                }
                assert(texts(out@) =~= line_values(ls, lo as int, (i + 1) as nat));
            },
        }
        i = i + 1;
    }
    Ok(out)
}

/// Reads a key document from its lines.
pub fn read_key_document(lines: &Vec<String>) -> (r: Result<KeyDocument, KeyError>)
    ensures
        match parse_key(texts(lines@)) {
            Ok(m) => r matches Ok(d) && d@ == m,
            Err(e) => r matches Err(f) && f == e,
        },
        r matches Ok(d) ==> d.header@.len() == HEADER_LINES,
{
    let ghost ls = texts(lines@);
    let header = match read_values(lines, 0, HEADER_LINES) {
        Ok(h) => h,
        Err(e) => {
            proof {
                lemma_lines_error_stays(ls, HEADER_LINES as nat, (HEADER_LINES + 1) as nat);
            }
            return Err(e);
        },
    };
    let count_text = match read_value(lines, HEADER_LINES) {
        Ok(c) => c,
        Err(e) => return Err(e),
    };
    let count = match parse_count_text(count_text.as_str()) {
        Some(n) => n,
        None => return Err(KeyError::InvalidIcCount),
    };
    let ic = match read_values(lines, HEADER_LINES + 1, count) {
        Ok(v) => v,
        Err(e) => return Err(e),
    };
    assert(texts(header@).len() == header@.len());
    Ok(KeyDocument { header, ic })
}

} // verus!
