//! Plain text building blocks: decimal numerals and separated joins.
use vstd::prelude::*;
use vstd::string::*;

verus! {

/// The character of a decimal digit `d < 10`.
pub open spec fn digit_char(d: nat) -> char {
    seq!['0', '1', '2', '3', '4', '5', '6', '7', '8', '9'][d as int]
}

/// The decimal numeral of `n`, without sign or leading zeros.
pub open spec fn decimal(n: nat) -> Seq<char>
    decreases n,
{
    if n < 10 {
        seq![digit_char(n)]
    } else {
        decimal(n / 10).push(digit_char(n % 10))
    }
}

/// `parts` concatenated, with `sep` between each two neighbours.
pub open spec fn join(parts: Seq<Seq<char>>, sep: Seq<char>) -> Seq<char>
    decreases parts.len(),
{
    if parts.len() == 0 {
        Seq::empty()
    } else if parts.len() == 1 {
        parts[0]
    } else {
        join(parts.drop_last(), sep) + sep + parts.last()
    }
}

fn digit_text(d: usize) -> (r: &'static str)
    requires
        d < 10,
    ensures
        r@ == seq![digit_char(d as nat)],
{
    proof {
        reveal_strlit("0");
        reveal_strlit("1");
        reveal_strlit("2");
        reveal_strlit("3");
        reveal_strlit("4");
        reveal_strlit("5");
        reveal_strlit("6");
        reveal_strlit("7");
        reveal_strlit("8");
        reveal_strlit("9");
    }
    let r = if d == 0 {
        "0"
    } else if d == 1 {
        "1"
    } else if d == 2 {
        "2"
    } else if d == 3 {
        "3"
    } else if d == 4 {
        "4"
    } else if d == 5 {
        "5"
    } else if d == 6 {
        "6"
    } else if d == 7 {
        "7"
    } else if d == 8 {
        "8"
    } else {
        "9"
    };
    assert(r@ =~= seq![digit_char(d as nat)]);
    r
}

/// The first `n` pieces, each followed by the value of the same index.
pub open spec fn interleave(pieces: Seq<Seq<char>>, values: Seq<Seq<char>>, n: nat) -> Seq<char>
    decreases n,
{
    if n == 0 {
        Seq::empty()
    } else {
        interleave(pieces, values, (n - 1) as nat) + pieces[n - 1] + values[n - 1]
    }
}

/// Where value `k` starts in an interleaving: after the first `k` pieces and
/// values and piece `k`.
pub open spec fn interleave_offset(pieces: Seq<Seq<char>>, values: Seq<Seq<char>>, k: int) -> int {
    (interleave(pieces, values, k as nat).len() + pieces[k].len()) as int
}

/// Appends the decimal numeral of `n` to `out`.
pub fn push_decimal(out: &mut String, n: usize)
    ensures
        final(out)@ == old(out)@ + decimal(n as nat),
    decreases n,
{
    if n >= 10 {
        push_decimal(out, n / 10);
    }
    let d = digit_text(n % 10);
    out.append(d);
    assert(out@ =~= old(out)@ + decimal(n as nat));
}

} // verus!

verus! {

/// Joining one more part adds the separator (unless it is the first) and the part.
pub proof fn lemma_join_step(parts: Seq<Seq<char>>, sep: Seq<char>, i: int)
    requires
        0 <= i < parts.len(),
    ensures
        join(parts.take(i + 1), sep) == if i == 0 {
            parts[0]
        } else {
            join(parts.take(i), sep) + sep + parts[i]
        },
{
    if i > 0 {
        assert(parts.take(i + 1).drop_last() =~= parts.take(i));
    }
}

/// The interleaving of `k <= n` pieces and values begins the interleaving of `n`.
pub proof fn lemma_interleave_prefix(pieces: Seq<Seq<char>>, values: Seq<Seq<char>>, k: nat, n: nat)
    requires
        k <= n,
    ensures
        interleave(pieces, values, k).len() <= interleave(pieces, values, n).len(),
        interleave(pieces, values, n).subrange(0, interleave(pieces, values, k).len() as int)
            == interleave(pieces, values, k),
    decreases n,
{
    if k < n {
        lemma_interleave_prefix(pieces, values, k, (n - 1) as nat);
        let a = interleave(pieces, values, (n - 1) as nat);
        let m = interleave(pieces, values, k).len() as int;
        assert(interleave(pieces, values, n).subrange(0, m) =~= a.subrange(0, m));
    } else {
        assert(interleave(pieces, values, n).subrange(0, interleave(pieces, values, n).len() as int)
            =~= interleave(pieces, values, n));
    }
}

/// Each value of an interleaving stands once, right after its piece: value
/// `k` starts where piece `k` ends, at `interleave_offset(pieces, values, k)`.
pub proof fn lemma_interleave_places_values(
    pieces: Seq<Seq<char>>,
    values: Seq<Seq<char>>,
    n: nat,
    k: int,
)
    requires
        0 <= k < n,
    ensures
        ({
            let s = interleave(pieces, values, n);
            let off = interleave_offset(pieces, values, k);
            &&& off + values[k].len() <= s.len()
            &&& s.subrange(off - pieces[k].len(), off) == pieces[k]
            &&& s.subrange(off, off + values[k].len()) == values[k]
        }),
{
    lemma_interleave_prefix(pieces, values, (k + 1) as nat, n);
    let s = interleave(pieces, values, n);
    let a = interleave(pieces, values, k as nat);
    let b = interleave(pieces, values, (k + 1) as nat);
    let off = interleave_offset(pieces, values, k);
    assert(b == a + pieces[k] + values[k]);
    assert(s.subrange(off - pieces[k].len(), off) =~= b.subrange(off - pieces[k].len(), off));
    assert(s.subrange(off, off + values[k].len()) =~= b.subrange(off, off + values[k].len()));
    assert(b.subrange(off - pieces[k].len(), off) =~= pieces[k]);
    assert(b.subrange(off, off + values[k].len()) =~= values[k]);
}

/// A decimal numeral is made of the digits `0` to `9`.
pub proof fn lemma_decimal_digits(n: nat)
    ensures
        forall|i: int| 0 <= i < decimal(n).len() ==> '0' <= #[trigger] decimal(n)[i] <= '9',
    decreases n,
{
    let d = (n % 10) as nat;
    assert('0' <= digit_char(d) <= '9') by {
        assert(d < 10);
        assert(seq!['0', '1', '2', '3', '4', '5', '6', '7', '8', '9'][d as int] == digit_char(d));
    }
    if n >= 10 {
        lemma_decimal_digits(n / 10);
        assert forall|i: int| 0 <= i < decimal(n).len() implies '0' <= #[trigger] decimal(n)[i]
            <= '9' by {
            if i < decimal(n / 10).len() {
                assert(decimal(n)[i] == decimal(n / 10)[i]);
            }
        }
    } else {
        assert(decimal(n)[0] == digit_char(n));
    }
}

/// A join starts with the first character of its first part.
pub proof fn lemma_join_first(parts: Seq<Seq<char>>, sep: Seq<char>)
    requires
        parts.len() > 0,
        parts[0].len() > 0,
    ensures
        join(parts, sep).len() > 0,
        join(parts, sep)[0] == parts[0][0],
    decreases parts.len(),
{
    if parts.len() > 1 {
        lemma_join_first(parts.drop_last(), sep);
    }
}

} // verus!
