//! The verifier contract for EVM chains, in Solidity: the key's header values
//! and commitment points are placed into a fixed contract text, and every hex
//! scalar is then written as a `uint256(...)` literal.
use crate::key::{texts, KeyDocument, KeyModel, HEADER_LINES};
use crate::scalar::{lemma_uint256_skip, lemma_uint256_split, uint256_literals, wrap_uint256};
use crate::text::{
    decimal, interleave, interleave_offset, join, lemma_decimal_digits, lemma_join_first,
    lemma_interleave_places_values, lemma_join_step, push_decimal,
};
use vstd::prelude::*;
use vstd::string::*;

verus! {

pub const SOL_HEAD: &'static str = r#"contract Verifier {
    using Pairing for *;
    struct VerifyingKey {
        Pairing.G2Point a;
        Pairing.G1Point b;
        Pairing.G2Point c;
        Pairing.G2Point gamma;
        Pairing.G1Point gamma_beta_1;
        Pairing.G2Point gamma_beta_2;
        Pairing.G2Point z;
        Pairing.G1Point[] ic;
    }
    struct Proof {
        Pairing.G1Point a;
        Pairing.G1Point a_p;
        Pairing.G2Point b;
        Pairing.G1Point b_p;
        Pairing.G1Point c;
        Pairing.G1Point c_p;
        Pairing.G1Point k;
        Pairing.G1Point h;
    }
    function verifyingKey() pure internal returns (VerifyingKey memory vk) {
        vk.a = Pairing.G2Point("#;

pub const SOL_B_OPEN: &'static str = r#");
        vk.b = Pairing.G1Point("#;

pub const SOL_C_OPEN: &'static str = r#");
        vk.c = Pairing.G2Point("#;

pub const SOL_GAMMA_OPEN: &'static str = r#");
        vk.gamma = Pairing.G2Point("#;

pub const SOL_GAMMA_BETA_1_OPEN: &'static str = r#");
        vk.gamma_beta_1 = Pairing.G1Point("#;

pub const SOL_GAMMA_BETA_2_OPEN: &'static str = r#");
        vk.gamma_beta_2 = Pairing.G2Point("#;

pub const SOL_Z_OPEN: &'static str = r#");
        vk.z = Pairing.G2Point("#;

pub const SOL_IC_LENGTH_OPEN: &'static str = r#");
        vk.ic = new Pairing.G1Point[]("#;

pub const SOL_IC_POINTS_OPEN: &'static str = r#");
        "#;

pub const SOL_KEY_END: &'static str = "\n    }";

pub const SOL_VERIFY: &'static str = r#"
    function verify(uint[] memory input, Proof memory proof) internal returns (uint) {
        uint256 snark_scalar_field = 21888242871839275222246405745257275088548364400416034343698204186575808495617;
        VerifyingKey memory vk = verifyingKey();
        require(input.length + 1 == vk.ic.length);
        // Compute the linear combination vk_x
        Pairing.G1Point memory vk_x = Pairing.G1Point(0, 0);
        for (uint i = 0; i < input.length; i++) {
            require(input[i] < snark_scalar_field);
            vk_x = Pairing.addition(vk_x, Pairing.scalar_mul(vk.ic[i + 1], input[i]));
        }
        vk_x = Pairing.addition(vk_x, vk.ic[0]);
        if (!Pairing.pairingProd2(proof.a, vk.a, Pairing.negate(proof.a_p), Pairing.P2())) return 1;
        if (!Pairing.pairingProd2(vk.b, proof.b, Pairing.negate(proof.b_p), Pairing.P2())) return 2;
        if (!Pairing.pairingProd2(proof.c, vk.c, Pairing.negate(proof.c_p), Pairing.P2())) return 3;
        if (!Pairing.pairingProd3(
            proof.k, vk.gamma,
            Pairing.negate(Pairing.addition(vk_x, Pairing.addition(proof.a, proof.c))), vk.gamma_beta_2,
            Pairing.negate(vk.gamma_beta_1), proof.b
        )) return 4;
        if (!Pairing.pairingProd3(
                Pairing.addition(vk_x, proof.a), proof.b,
                Pairing.negate(proof.h), vk.z,
                Pairing.negate(proof.c), Pairing.P2()
        )) return 5;
        return 0;
    }
    event Verified(string s);
    function verifyTx(
"#;

pub const SOL_PARAMS_V1: &'static str = r#"            uint[2] memory a,
            uint[2] memory a_p,
            uint[2][2] memory b,
            uint[2] memory b_p,
            uint[2] memory c,
            uint[2] memory c_p,
            uint[2] memory h,
            uint[2] memory k,
            uint"#;

pub const SOL_PARAMS_V2: &'static str = r#"            Proof memory proof,
            uint"#;

pub const SOL_TAIL_V1: &'static str = r#" memory input
        ) public returns (bool r) {
        Proof memory proof;
        proof.a = Pairing.G1Point(a[0], a[1]);
        proof.a_p = Pairing.G1Point(a_p[0], a_p[1]);
        proof.b = Pairing.G2Point([b[0][0], b[0][1]], [b[1][0], b[1][1]]);
        proof.b_p = Pairing.G1Point(b_p[0], b_p[1]);
        proof.c = Pairing.G1Point(c[0], c[1]);
        proof.c_p = Pairing.G1Point(c_p[0], c_p[1]);
        proof.h = Pairing.G1Point(h[0], h[1]);
        proof.k = Pairing.G1Point(k[0], k[1]);
        uint[] memory inputValues = new uint[](input.length);
        for(uint i = 0; i < input.length; i++){
            inputValues[i] = input[i];
        }
        if (verify(inputValues, proof) == 0) {
            emit Verified("Transaction successfully verified.");
            return true;
        } else {
            return false;
        }
    }
}
"#;

pub const SOL_TAIL_V2: &'static str = r#" memory input
        ) public returns (bool r) {
        uint[] memory inputValues = new uint[](input.length);
        for(uint i = 0; i < input.length; i++){
            inputValues[i] = input[i];
        }
        if (verify(inputValues, proof) == 0) {
            emit Verified("Transaction successfully verified.");
            return true;
        } else {
            return false;
        }
    }
}
"#;

/// Separator between two commitment point entries.
pub const IC_SEPARATOR: &'static str = "\n        ";

pub const SOL_IC_ENTRY_OPEN: &'static str = "vk.ic[";

pub const SOL_IC_ENTRY_MID: &'static str = "] = Pairing.G1Point(";

pub const SOL_IC_ENTRY_CLOSE: &'static str = ");";

/// The fixed texts that precede each of the seven header values.
pub open spec fn solidity_header_pieces() -> Seq<Seq<char>> {
    seq![
        SOL_HEAD@,
        SOL_B_OPEN@,
        SOL_C_OPEN@,
        SOL_GAMMA_OPEN@,
        SOL_GAMMA_BETA_1_OPEN@,
        SOL_GAMMA_BETA_2_OPEN@,
        SOL_Z_OPEN@,
    ]
}

/// The Solidity statement that stores commitment point `i` with value `v`.
pub open spec fn solidity_ic_entry(i: nat, v: Seq<char>) -> Seq<char> {
    SOL_IC_ENTRY_OPEN@ + decimal(i) + SOL_IC_ENTRY_MID@ + v + SOL_IC_ENTRY_CLOSE@
}

/// One entry per commitment point, in index order.
pub open spec fn solidity_ic_entries(ic: Seq<Seq<char>>) -> Seq<Seq<char>> {
    Seq::new(ic.len(), |i: int| solidity_ic_entry(i as nat, ic[i]))
}

/// The commitment point statements, one per line.
pub open spec fn solidity_ic_body(ic: Seq<Seq<char>>) -> Seq<char> {
    join(solidity_ic_entries(ic), IC_SEPARATOR@)
}

pub const SOL_INPUT_OPEN: &'static str = "[";

pub const SOL_INPUT_CLOSE: &'static str = "]";

/// The parameters of `verifyTx` up to the input array's length.
pub open spec fn solidity_params(is_abiv2: bool) -> Seq<char> {
    if is_abiv2 {
        SOL_PARAMS_V2@ + SOL_INPUT_OPEN@
    } else {
        SOL_PARAMS_V1@ + SOL_INPUT_OPEN@
    }
}

/// The contract text after the input array's length.
pub open spec fn solidity_tail(is_abiv2: bool) -> Seq<char> {
    if is_abiv2 {
        SOL_INPUT_CLOSE@ + SOL_TAIL_V2@
    } else {
        SOL_INPUT_CLOSE@ + SOL_TAIL_V1@
    }
}

/// The contract text between the commitment points and the `verifyTx`
/// parameters.
pub open spec fn solidity_verify_text() -> Seq<char> {
    SOL_KEY_END@ + SOL_VERIFY@
}

/// The contract text with every value in place, before hex scalars are
/// rewritten. The input array of `verifyTx` has one element less than the
/// commitment array: the first point is the constant term.
pub open spec fn solidity_contract(key: KeyModel, is_abiv2: bool) -> Seq<char> {
    interleave(solidity_header_pieces(), key.header, HEADER_LINES as nat) + SOL_IC_LENGTH_OPEN@
        + decimal(key.ic.len()) + SOL_IC_POINTS_OPEN@ + solidity_ic_body(key.ic) + solidity_verify_text()
        + solidity_params(is_abiv2) + decimal((key.ic.len() - 1) as nat) + solidity_tail(is_abiv2)
}

fn solidity_header_piece(k: usize) -> (r: &'static str)
    requires
        k < HEADER_LINES,
    ensures
        r@ == solidity_header_pieces()[k as int],
{
    if k == 0 {
        SOL_HEAD
    } else if k == 1 {
        SOL_B_OPEN
    } else if k == 2 {
        SOL_C_OPEN
    } else if k == 3 {
        SOL_GAMMA_OPEN
    } else if k == 4 {
        SOL_GAMMA_BETA_1_OPEN
    } else if k == 5 {
        SOL_GAMMA_BETA_2_OPEN
    } else {
        SOL_Z_OPEN
    }
}

/// Appends the commitment point statements for `ic` to `out`.
pub fn push_solidity_ic_body(out: &mut String, ic: &Vec<String>)
    requires
        ic@.len() <= usize::MAX,
    ensures
        final(out)@ == old(out)@ + solidity_ic_body(texts(ic@)),
{
    let ghost entries = solidity_ic_entries(texts(ic@));
    let mut i: usize = 0;
    while i < ic.len()
        invariant
            entries == solidity_ic_entries(texts(ic@)),
            i <= ic@.len(),
            out@ == old(out)@ + join(entries.take(i as int), IC_SEPARATOR@),
        decreases ic@.len() - i,
    {
        let ghost before = out@;
        if i > 0 {
            out.append(IC_SEPARATOR);
        }
        out.append(SOL_IC_ENTRY_OPEN);
        push_decimal(out, i);
        out.append(SOL_IC_ENTRY_MID);
        out.append(ic[i].as_str());
        out.append(SOL_IC_ENTRY_CLOSE);
        proof {
            lemma_join_step(entries, IC_SEPARATOR@, i as int);
            assert(texts(ic@)[i as int] == ic@[i as int]@);
            assert(entries[i as int] == solidity_ic_entry(i as nat, ic@[i as int]@));
            assert(out@ =~= old(out)@ + join(entries.take(i + 1), IC_SEPARATOR@));
        }
        i = i + 1;
    }
    assert(entries.take(ic@.len() as int) =~= entries);
}

/// The Solidity verifier contract for `key` (without the libraries it uses):
/// the values in place, then each hex scalar written as `uint256(...)`.
pub fn render_solidity_contract(key: &KeyDocument, is_abiv2: bool) -> (r: String)
    requires
        key.header@.len() == HEADER_LINES,
        key.ic@.len() >= 1,
    ensures
        r@ == uint256_literals(solidity_contract(key@, is_abiv2)),
{
    let mut out = String::new();
    let mut k: usize = 0;
    while k < HEADER_LINES
        invariant
            key.header@.len() == HEADER_LINES,
            k <= HEADER_LINES,
            out@ == interleave(solidity_header_pieces(), key@.header, k as nat),
        decreases HEADER_LINES - k,
    {
        out.append(solidity_header_piece(k));
        out.append(key.header[k].as_str());
        assert(key@.header[k as int] == key.header@[k as int]@);
        assert(out@ =~= interleave(solidity_header_pieces(), key@.header, (k + 1) as nat));
        k = k + 1;
    }
    let n = key.ic.len();
    out.append(SOL_IC_LENGTH_OPEN);
    push_decimal(&mut out, n);
    out.append(SOL_IC_POINTS_OPEN);
    push_solidity_ic_body(&mut out, &key.ic);
    out.append(SOL_KEY_END);
    out.append(SOL_VERIFY);
    if is_abiv2 {
        out.append(SOL_PARAMS_V2);
    } else {
        out.append(SOL_PARAMS_V1);
    }
    out.append(SOL_INPUT_OPEN);
    push_decimal(&mut out, n - 1);
    out.append(SOL_INPUT_CLOSE);
    if is_abiv2 {
        out.append(SOL_TAIL_V2);
    } else {
        out.append(SOL_TAIL_V1);
    }
    assert(out@ =~= solidity_contract(key@, is_abiv2));
    wrap_uint256(out.as_str())
}

/// The commitment array holds one statement per point and no more; the
/// statement at position `i` stores point `i` under index `i`, so the indices
/// run from 0 to `n - 1` in ascending order without gaps. The last statement
/// follows those of all earlier points.
pub proof fn lemma_solidity_ic_entries_in_order(ic: Seq<Seq<char>>)
    ensures
        solidity_ic_entries(ic).len() == ic.len(),
        forall|i: int|
            0 <= i < ic.len() ==> #[trigger] solidity_ic_entries(ic)[i] == SOL_IC_ENTRY_OPEN@
                + decimal(i as nat) + SOL_IC_ENTRY_MID@ + ic[i] + SOL_IC_ENTRY_CLOSE@,
        ic.len() == 1 ==> solidity_ic_body(ic) == solidity_ic_entry(0, ic[0]),
        ic.len() > 1 ==> solidity_ic_body(ic) == solidity_ic_body(ic.drop_last()) + IC_SEPARATOR@
            + solidity_ic_entry((ic.len() - 1) as nat, ic.last()),
{
    if ic.len() > 1 {
        assert(solidity_ic_entries(ic).drop_last() =~= solidity_ic_entries(ic.drop_last()));
    }
}

/// Each of the seven header values is placed exactly once, in document
/// order: value `k` stands in the contract text right after the fixed text of
/// its field.
pub proof fn lemma_solidity_header_values_placed(key: KeyModel, is_abiv2: bool, k: int)
    requires
        key.header.len() == HEADER_LINES,
        0 <= k < HEADER_LINES,
    ensures
        ({
            let c = solidity_contract(key, is_abiv2);
            let p = solidity_header_pieces();
            let off = interleave_offset(p, key.header, k);
            &&& off + key.header[k].len() <= c.len()
            &&& c.subrange(off - p[k].len(), off) == p[k]
            &&& c.subrange(off, off + key.header[k].len()) == key.header[k]
        }),
{
    let p = solidity_header_pieces();
    let h = interleave(p, key.header, HEADER_LINES as nat);
    let c = solidity_contract(key, is_abiv2);
    lemma_interleave_places_values(p, key.header, HEADER_LINES as nat, k);
    let off = interleave_offset(p, key.header, k);
    assert(c.subrange(0, h.len() as int) =~= h);
    assert(c.subrange(off - p[k].len(), off) =~= h.subrange(off - p[k].len(), off));
    assert(c.subrange(off, off + key.header[k].len()) =~= h.subrange(
        off,
        off + key.header[k].len(),
    ));
}

/// The input array of `verifyTx` is declared with one element less than the
/// commitment array: its length is the numeral of `n - 1` right before the
/// closing part of the contract.
pub proof fn lemma_solidity_input_length(key: KeyModel, is_abiv2: bool)
    requires
        key.ic.len() >= 1,
    ensures
        ({
            let c = solidity_contract(key, is_abiv2);
            let t = solidity_tail(is_abiv2);
            let d = decimal((key.ic.len() - 1) as nat);
            &&& c.len() >= t.len() + d.len()
            &&& c.subrange(c.len() - t.len() - d.len(), c.len() - t.len()) == d
            &&& c.subrange(c.len() - t.len(), c.len() as int) == t
        }),
{
    let c = solidity_contract(key, is_abiv2);
    let t = solidity_tail(is_abiv2);
    let d = decimal((key.ic.len() - 1) as nat);
    let x = interleave(solidity_header_pieces(), key.header, HEADER_LINES as nat)
        + SOL_IC_LENGTH_OPEN@ + decimal(key.ic.len()) + SOL_IC_POINTS_OPEN@ + solidity_ic_body(
        key.ic,
    ) + solidity_verify_text() + solidity_params(is_abiv2);
    assert(c == x + d + t);
    assert(c.subrange(c.len() - t.len() - d.len(), c.len() - t.len()) =~= d);
    assert(c.subrange(c.len() - t.len(), c.len() as int) =~= t);
}

/// The statement of commitment point `i` after the `uint256` rewrite: only
/// the point's value is rewritten.
pub open spec fn solidity_ic_entry_rewritten(i: nat, v: Seq<char>) -> Seq<char> {
    SOL_IC_ENTRY_OPEN@ + decimal(i) + SOL_IC_ENTRY_MID@ + uint256_literals(v) + SOL_IC_ENTRY_CLOSE@
}

proof fn lemma_solidity_ic_entry_rewritten(i: nat, v: Seq<char>)
    ensures
        uint256_literals(solidity_ic_entry(i, v)) == solidity_ic_entry_rewritten(i, v),
        solidity_ic_entry(i, v).len() > 0,
        solidity_ic_entry(i, v)[0] == 'v',
{
    reveal_strlit("vk.ic[");
    reveal_strlit("] = Pairing.G1Point(");
    reveal_strlit(");");
    let o = SOL_IC_ENTRY_OPEN@;
    let m = SOL_IC_ENTRY_MID@;
    let c = SOL_IC_ENTRY_CLOSE@;
    let d = decimal(i);
    lemma_decimal_digits(i);
    let p = o + d + m;
    assert(forall|k: int| 0 <= k < o.len() ==> o[k] != 'u' && o[k] != 'x' && o[k] != 'X');
    assert(forall|k: int| 0 <= k < m.len() ==> m[k] != 'u' && m[k] != 'x' && m[k] != 'X');
    assert(forall|k: int| 0 <= k < c.len() ==> c[k] != 'u' && c[k] != 'x' && c[k] != 'X');
    assert forall|k: int| 0 <= k < p.len() implies p[k] != 'u' && p[k] != 'x' && p[k] != 'X' by {
        if k < o.len() {
            assert(p[k] == o[k]);
        } else if k < o.len() + d.len() {
            assert(p[k] == d[k - o.len()]);
        } else {
            assert(p[k] == m[k - o.len() - d.len()]);
        }
    }
    assert(p.last() == m.last());
    assert(solidity_ic_entry(i, v) =~= p + (v + c));
    lemma_uint256_skip(p, v + c);
    lemma_uint256_split(v, c);
    lemma_uint256_skip(c, Seq::empty());
    assert(c + Seq::<char>::empty() =~= c);
    assert(uint256_literals(Seq::<char>::empty()) =~= Seq::<char>::empty());
    assert(p + (uint256_literals(v) + c) =~= solidity_ic_entry_rewritten(i, v));
    assert(solidity_ic_entry(i, v)[0] == o[0]);
}

/// After the `uint256` rewrite the commitment array still holds one statement
/// per point and no more, under indices 0 to `n - 1` in ascending order; the
/// rewrite changes only the points' values, each on its own.
pub proof fn lemma_solidity_ic_body_rewritten(ic: Seq<Seq<char>>)
    ensures
        uint256_literals(solidity_ic_body(ic)) == join(
            Seq::new(ic.len(), |i: int| solidity_ic_entry_rewritten(i as nat, ic[i])),
            IC_SEPARATOR@,
        ),
    decreases ic.len(),
{
    let r = Seq::new(ic.len(), |i: int| solidity_ic_entry_rewritten(i as nat, ic[i]));
    lemma_solidity_ic_entries_in_order(ic);
    if ic.len() == 0 {
        assert(solidity_ic_body(ic) =~= Seq::<char>::empty());
        assert(uint256_literals(Seq::<char>::empty()) =~= Seq::<char>::empty());
    } else if ic.len() == 1 {
        lemma_solidity_ic_entry_rewritten(0, ic[0]);
    } else {
        let n = (ic.len() - 1) as nat;
        let head = ic.drop_last();
        let e = solidity_ic_entry(n, ic.last());
        let sep = IC_SEPARATOR@;
        lemma_solidity_ic_body_rewritten(head);
        lemma_solidity_ic_entry_rewritten(n, ic.last());
        reveal_strlit("\n        ");
        lemma_uint256_split(solidity_ic_body(head) + sep, e);
        lemma_uint256_split(solidity_ic_body(head), sep);
        assert(forall|k: int| 0 <= k < sep.len() ==> sep[k] != 'u' && sep[k] != 'x' && sep[k] != 'X');
        lemma_uint256_skip(sep, Seq::empty());
        assert(sep + Seq::<char>::empty() =~= sep);
        assert(uint256_literals(Seq::<char>::empty()) =~= Seq::<char>::empty());
        assert(r.drop_last() =~= Seq::new(
            head.len(),
            |i: int| solidity_ic_entry_rewritten(i as nat, head[i]),
        ));
    }
}

/// The contract text before the commitment point statements.
pub open spec fn solidity_contract_head(key: KeyModel) -> Seq<char> {
    interleave(solidity_header_pieces(), key.header, HEADER_LINES as nat) + SOL_IC_LENGTH_OPEN@
        + decimal(key.ic.len()) + SOL_IC_POINTS_OPEN@
}

/// The rendered contract after the `uint256` rewrite: the commitment array
/// keeps one statement per point under indices 0 to `n - 1` in ascending
/// order, each point's value rewritten on its own, and the input array of
/// `verifyTx` keeps its length `n - 1` unchanged.
pub proof fn lemma_solidity_contract_rewritten(key: KeyModel, is_abiv2: bool)
    requires
        key.ic.len() >= 1,
    ensures
        ({
            let n = key.ic.len();
            let params = if is_abiv2 {
                SOL_PARAMS_V2@
            } else {
                SOL_PARAMS_V1@
            };
            let tail = if is_abiv2 {
                SOL_TAIL_V2@
            } else {
                SOL_TAIL_V1@
            };
            uint256_literals(solidity_contract(key, is_abiv2)) == uint256_literals(
                solidity_contract_head(key),
            ) + join(
                Seq::new(n, |i: int| solidity_ic_entry_rewritten(i as nat, key.ic[i])),
                IC_SEPARATOR@,
            ) + uint256_literals(solidity_verify_text() + params) + SOL_INPUT_OPEN@ + decimal(
                (n - 1) as nat,
            ) + SOL_INPUT_CLOSE@ + uint256_literals(tail)
        }),
{
    reveal_strlit("[");
    reveal_strlit("]");
    reveal_strlit("\n    }");
    let n = key.ic.len();
    let params = if is_abiv2 {
        SOL_PARAMS_V2@
    } else {
        SOL_PARAMS_V1@
    };
    let tail = if is_abiv2 {
        SOL_TAIL_V2@
    } else {
        SOL_TAIL_V1@
    };
    let h = solidity_contract_head(key);
    let b = solidity_ic_body(key.ic);
    let k = solidity_verify_text();
    let d = decimal((n - 1) as nat);
    let o = SOL_INPUT_OPEN@;
    let cl = SOL_INPUT_CLOSE@;
    let c = solidity_contract(key, is_abiv2);
    assert(c =~= (h + b + (k + params)) + ((o + d + cl) + tail));
    // the numeral and its brackets pass unchanged
    lemma_decimal_digits((n - 1) as nat);
    let m = o + d + cl;
    assert forall|i: int| 0 <= i < m.len() implies m[i] != 'u' && m[i] != 'x' && m[i] != 'X' by {
        if 1 <= i < 1 + d.len() {
            assert(m[i] == d[i - 1]);
        }
    }
    assert(m.last() == ']');
    lemma_uint256_skip(m, tail);
    lemma_uint256_split(h + b + (k + params), m + tail);
    // the commitment statements are cut off on both sides
    lemma_uint256_split(h + b, k + params);
    lemma_solidity_ic_entries_in_order(key.ic);
    lemma_solidity_ic_entry_rewritten(0, key.ic[0]);
    lemma_join_first(solidity_ic_entries(key.ic), IC_SEPARATOR@);
    lemma_uint256_split(h, b);
    lemma_solidity_ic_body_rewritten(key.ic);
    assert(uint256_literals(c) =~= uint256_literals(h) + uint256_literals(b) + uint256_literals(
        k + params,
    ) + o + d + cl + uint256_literals(tail));
}

} // verus!
